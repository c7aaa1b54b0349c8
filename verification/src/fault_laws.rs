//! How commands end that are refused or that meet a fault.

use vstd::prelude::*;

use crate::commands::job_on;
use crate::confine::{
    confining, judge, led, ConfineStage, ConfineStep, Confinement, Judging, LINK_LIMIT,
};
use crate::disk_laws::target_of;
use crate::fsio::{Fault, Reply, Request};
use crate::job::{
    done, failed, folder_ready, phase_next, phase_request, pruned, resolved, root_of, AfterFolder,
    Flat, Outcome, Phase, PhaseView, StatUse, Task,
};
use crate::path::{components, Part, Path};
use crate::prune::Pruning;
use crate::resolve::{escapes, names_something, utf8, within_text};
use crate::rule_laws::messages_read;
use crate::save::{saving, Saving};
use crate::text::shown;
use crate::walk::WalkView;
use crate::world::{
    is_blocked, is_home, is_there, leads_a_step, leads_by_a_step, leads_nowhere_else, leads_to,
    stepped, System, World,
};
use crate::world_laws::{
    ended_with, goes_on_from_there, is_open_path, shorter_is_open, started, target_is_below,
};

verus! {

/// A command with a path whose text leads out of the picked folder has ended before it began, with
/// the refusal of the path; and so has a save to a path that names no file.
pub proof fn a_path_that_leads_out_is_refused(
    dir: Seq<char>,
    name: Seq<char>,
    task: Task<Path, Seq<u8>, Seq<char>>,
)
    requires
        escapes(components(utf8(name))) || (task is Save && !names_something(name)),
    ensures
        job_on(dir, name, task).phase == failed("invalid note path: \""@ + name + "\""@),
        phase_request(job_on(dir, name, task).phase) is None,
{
    messages_read(name, Seq::empty(), Seq::empty());
}

/// Every other command begins by looking up where the picked folder really is.
pub proof fn any_other_path_is_looked_up(
    dir: Seq<char>,
    name: Seq<char>,
    task: Task<Path, Seq<u8>, Seq<char>>,
)
    requires
        !escapes(components(utf8(name))),
        task is Save ==> names_something(name),
    ensures
        phase_request(job_on(dir, name, task).phase) == Some(Request::Canonicalize(root_of(dir))),
{
}

/// A move or a rename to a path whose text leads out ends with the refusal of that path, and changes
/// nothing.
pub proof fn a_target_that_leads_out_is_refused(
    sys: System,
    w: World,
    dir: Seq<char>,
    from: Seq<char>,
    to: Seq<char>,
)
    requires
        is_home(sys, w, root_of(dir)),
        is_open_path(w, dir, from),
        escapes(components(utf8(to))),
    ensures
        leads_to(
            sys,
            started(w, dir, from, Task::MoveFrom { to }),
            ended_with(w, dir, failed("invalid note path: \""@ + to + "\""@)),
        ),
        leads_to(
            sys,
            started(w, dir, from, Task::RenameFrom { to }),
            ended_with(w, dir, failed("invalid note path: \""@ + to + "\""@)),
        ),
{
    let end = ended_with(w, dir, failed("invalid note path: \""@ + to + "\""@));
    messages_read(to, Seq::empty(), Seq::empty());
    leads_nowhere_else(sys, end);
    assert(ended_with(w, dir, resolved(dir, Task::MoveFrom { to }, target_of(dir, from))) == end);
    goes_on_from_there(sys, w, dir, from, Task::MoveFrom { to }, end);
    assert(ended_with(w, dir, resolved(dir, Task::RenameFrom { to }, target_of(dir, from))) == end);
    goes_on_from_there(sys, w, dir, from, Task::RenameFrom { to }, end);
}

/// The message that refuses a path which really leads out: it shows the whole path.
pub open spec fn whole_refusal(dir: Seq<char>, name: Seq<char>) -> Seq<char> {
    "invalid note path: \""@ + shown(within_text(utf8(dir), components(utf8(name)))) + "\""@
}

proof fn probing_refuses(
    sys: System,
    w: World,
    dir: Seq<char>,
    name: Seq<char>,
    task: Task<Path, Seq<u8>, Seq<char>>,
    c: Judging,
    k: int,
    deepest: int,
    hops: u32,
)
    requires
        is_open_path(w, dir, name),
        root_of(dir).len() <= deepest <= k <= target_of(dir, name).len(),
        is_there(w, target_of(dir, name).take(deepest)),
        forall|j: int|
            deepest < j <= target_of(dir, name).len() ==> !is_there(
                w,
                #[trigger] target_of(dir, name).take(j),
            ),
        !(sys.real_of)(root_of(dir)).is_prefix_of(
            (sys.real_of)(target_of(dir, name).take(deepest)),
        ),
        c.target == target_of(dir, name),
        c.text == within_text(utf8(dir), components(utf8(name))),
        c.stage == (ConfineStage::Probe {
            canon_root: (sys.real_of)(root_of(dir)),
            probe: target_of(dir, name).take(k),
            hops,
        }),
    ensures
        leads_to(
            sys,
            ended_with(w, dir, Phase::Resolve { at: c, task }),
            ended_with(w, dir, failed(whole_refusal(dir, name))),
        ),
    decreases k,
{
    let root = root_of(dir);
    let target = target_of(dir, name);
    let probe = target.take(k);
    let canon_root = (sys.real_of)(root);
    let here = ended_with(w, dir, Phase::Resolve { at: c, task });
    let end = ended_with(w, dir, failed(whole_refusal(dir, name)));
    target_is_below(dir, name);
    messages_read(shown(c.text), Seq::empty(), Seq::empty());
    if k == deepest {
        assert(stepped(sys, here) == end);
        leads_a_step(sys, here);
    } else {
        assert(!is_there(w, probe));
        shorter_is_open(w, target, k);
        let look = Confinement { stage: ConfineStage::Look { canon_root, probe, hops }, ..c };
        let middle = ended_with(w, dir, Phase::Resolve { at: look, task });
        assert(stepped(sys, here) == middle);
        let up = target.take(k - 1);
        assert(probe.last() == target[k - 1]);
        assert(target[k - 1] is Name);
        assert(probe.drop_last() =~= up);
        let next = Confinement { stage: ConfineStage::Probe { canon_root, probe: up, hops }, ..c };
        let later = ended_with(w, dir, Phase::Resolve { at: next, task });
        assert(stepped(sys, middle) == later);
        probing_refuses(sys, w, dir, name, task, next, k - 1, deepest, hops);
        leads_by_a_step(sys, middle, end);
        leads_by_a_step(sys, here, end);
    }
}

/// A path whose deepest entry really lies outside the picked folder is refused, whatever was to be
/// done with it, and nothing changes. The message shows the whole path.
pub proof fn a_path_that_really_lies_outside_is_refused(
    sys: System,
    w: World,
    dir: Seq<char>,
    name: Seq<char>,
    task: Task<Path, Seq<u8>, Seq<char>>,
    deepest: int,
)
    requires
        is_there(w, root_of(dir)),
        is_open_path(w, dir, name),
        task is Save ==> names_something(name),
        root_of(dir).len() <= deepest <= target_of(dir, name).len(),
        is_there(w, target_of(dir, name).take(deepest)),
        forall|j: int|
            deepest < j <= target_of(dir, name).len() ==> !is_there(
                w,
                #[trigger] target_of(dir, name).take(j),
            ),
        !(sys.real_of)(root_of(dir)).is_prefix_of(
            (sys.real_of)(target_of(dir, name).take(deepest)),
        ),
    ensures
        leads_to(
            sys,
            started(w, dir, name, task),
            ended_with(w, dir, failed(whole_refusal(dir, name))),
        ),
{
    let target = target_of(dir, name);
    let c = confining(dir, name);
    let canon_root = (sys.real_of)(root_of(dir));
    let here = started(w, dir, name, task);
    let end = ended_with(w, dir, failed(whole_refusal(dir, name)));
    let n = target.len() as int;
    let next = Confinement {
        stage: ConfineStage::Probe { canon_root, probe: target, hops: LINK_LIMIT },
        ..c
    };
    assert(target.take(n) =~= target);
    assert(stepped(sys, here) == ended_with(w, dir, Phase::Resolve { at: next, task }));
    probing_refuses(sys, w, dir, name, task, next, n, deepest, LINK_LIMIT);
    leads_by_a_step(sys, here, end);
}

/// Where the picked folder itself is missing, a command says so and changes nothing.
pub proof fn a_missing_picked_folder_is_reported(
    sys: System,
    w: World,
    dir: Seq<char>,
    name: Seq<char>,
    task: Task<Path, Seq<u8>, Seq<char>>,
)
    requires
        !is_there(w, root_of(dir)),
        !is_blocked(w, root_of(dir)),
        !escapes(components(utf8(name))),
        task is Save ==> names_something(name),
    ensures
        leads_to(sys, started(w, dir, name, task), ended_with(w, dir, failed(sys.missing))),
{
    let here = started(w, dir, name, task);
    assert(stepped(sys, here) == ended_with(w, dir, failed(sys.missing)));
    leads_a_step(sys, here);
}

/// A path with a file where a folder would have to be cannot be gone by: the command ends with the
/// words of the system, and changes nothing.
pub proof fn a_blocked_path_is_reported(
    sys: System,
    w: World,
    dir: Seq<char>,
    name: Seq<char>,
    task: Task<Path, Seq<u8>, Seq<char>>,
)
    requires
        is_there(w, root_of(dir)),
        !escapes(components(utf8(name))),
        task is Save ==> names_something(name),
        is_blocked(w, target_of(dir, name)),
        !is_there(w, target_of(dir, name)),
    ensures
        leads_to(sys, started(w, dir, name, task), ended_with(w, dir, failed(sys.impossible))),
{
    let target = target_of(dir, name);
    let c = confining(dir, name);
    let canon_root = (sys.real_of)(root_of(dir));
    let here = started(w, dir, name, task);
    let end = ended_with(w, dir, failed(sys.impossible));
    let next = Confinement {
        stage: ConfineStage::Probe { canon_root, probe: target, hops: LINK_LIMIT },
        ..c
    };
    let middle = ended_with(w, dir, Phase::Resolve { at: next, task });
    assert(stepped(sys, here) == middle);
    assert(stepped(sys, middle) == end);
    leads_a_step(sys, middle);
    leads_by_a_step(sys, here, end);
}

/// Any fault of a removal, of making a folder, of a move, of the last look at a file, of reading a
/// note, of showing an entry or of a walk is reported in the system's own words.
pub proof fn faults_are_reported_in_their_words(
    dir: Seq<char>,
    p: Path,
    q: Path,
    name: Seq<char>,
    ms: u128,
    then_do: AfterFolder<Path, Seq<u8>>,
    at: WalkView,
    fault: Fault,
)
    ensures
        phase_next(dir, Phase::DropFolder { folder: p }, Reply::Done(Err(fault))) == failed(
            fault.text,
        ),
        phase_next(dir, Phase::RemoveNote { target: p }, Reply::Done(Err(fault))) == failed(
            fault.text,
        ),
        phase_next(dir, Phase::MakeFolder { folder: p, then_do }, Reply::Done(Err(fault)))
            == failed(fault.text),
        phase_next(dir, Phase::Move { from: p, to: q }, Reply::Done(Err(fault))) == failed(
            fault.text,
        ),
        phase_next(dir, Phase::Stat { target: p, why: StatUse::Stamp }, Reply::Meta(Err(fault)))
            == failed(fault.text),
        phase_next(
            dir,
            Phase::ReadNote { target: p, name, modified_ms: ms },
            Reply::Bytes(Err(fault)),
        ) == failed(fault.text),
        phase_next(dir, Phase::Reveal { target: p, name }, Reply::Launched(Err(fault))) == failed(
            fault.text,
        ),
        phase_next(dir, Phase::Walk { at }, Reply::Entries(Err(fault))) == failed(fault.text),
        phase_next(dir, Phase::Walk { at }, Reply::Bytes(Err(fault))) == failed(fault.text),
{
}

/// A command that finds missing what it was to list, to read or to remove ends well; any other fault
/// of these operations is reported in the system's own words.
pub proof fn only_what_is_missing_is_passed_over(
    dir: Seq<char>,
    p: Path,
    text: Seq<char>,
    number: u32,
    fault: Fault,
)
    ensures
        ({
            let or_missing = |end: PhaseView|
                if fault.not_found {
                    end
                } else {
                    failed(fault.text)
                };
            &&& phase_next(
                dir,
                Phase::ReadFlat { folder: p, what: Flat::Notes { sub: text } },
                Reply::Entries(Err(fault)),
            ) == or_missing(done(Outcome::Heads(Seq::empty())))
            &&& phase_next(
                dir,
                Phase::ReadFlat { folder: p, what: Flat::Attachments },
                Reply::Entries(Err(fault)),
            ) == or_missing(done(Outcome::Attachments(Seq::empty())))
            &&& phase_next(
                dir,
                Phase::ReadFlat { folder: p, what: Flat::Removal { path: text } },
                Reply::Entries(Err(fault)),
            ) == or_missing(done(Outcome::Unit))
            &&& phase_next(
                dir,
                Phase::ReadFlat { folder: p, what: Flat::Tree },
                Reply::Entries(Err(fault)),
            ) == or_missing(done(Outcome::Unit))
            &&& phase_next(dir, Phase::LookTree { target: p }, Reply::Link(Err(fault)))
                == or_missing(done(Outcome::Unit))
            &&& phase_next(dir, Phase::DropTree { target: p }, Reply::Done(Err(fault)))
                == or_missing(done(Outcome::Unit))
            &&& phase_next(dir, Phase::SetAside { target: p, number }, Reply::Done(Err(fault)))
                == or_missing(done(Outcome::Unit))
            &&& phase_next(dir, Phase::RemoveAttachment { target: p }, Reply::Done(Err(fault)))
                == or_missing(done(Outcome::Unit))
            &&& phase_next(
                dir,
                Phase::Stat { target: p, why: StatUse::MaybeStamp },
                Reply::Meta(Err(fault)),
            ) == or_missing(done(Outcome::MaybeStamp(None)))
            &&& phase_next(
                dir,
                Phase::Stat { target: p, why: StatUse::Note { name: text } },
                Reply::Meta(Err(fault)),
            ) == or_missing(done(Outcome::Note(None)))
            &&& phase_next(dir, Phase::ReadAttachment { target: p }, Reply::Bytes(Err(fault)))
                == or_missing(done(Outcome::Bytes(None)))
        }),
{
}

/// A folder that is a link is removed as what it is, and nothing is renamed. Of the places beside a
/// folder the next one is tried while something stands there, and only a place where nothing does is
/// used.
pub proof fn a_tree_is_set_aside_where_nothing_stands(
    dir: Seq<char>,
    p: Path,
    to: Path,
    number: u32,
    seen: Option<Path>,
    fault: Fault,
)
    requires
        number < u32::MAX,
    ensures
        phase_next(dir, Phase::LookTree { target: p }, Reply::Link(Ok(Some(to))))
            == (PhaseView::DropTree { target: p }),
        phase_request(Phase::DropTree { target: p }) == Some(Request::RemoveDirAll(p)),
        phase_next(dir, Phase::PickAside { target: p, number }, Reply::Link(Ok(seen)))
            == (PhaseView::PickAside { target: p, number: (number + 1) as u32 }),
        phase_next(dir, Phase::PickAside { target: p, number }, Reply::Link(Err(fault)))
            == if fault.not_found {
            PhaseView::SetAside { target: p, number }
        } else {
            failed(fault.text)
        },
{
}

/// Whether the marker was there, whether all of a folder that was set aside could be removed, and
/// whether a folder that is empty could be, does not matter to a command.
pub proof fn what_is_left_behind_does_not_matter(
    dir: Seq<char>,
    p: Path,
    root: Path,
    number: u32,
    empty: bool,
    answer: Result<(), Fault>,
    fault: Fault,
    stamp: Option<Path>,
)
    ensures
        phase_next(dir, Phase::DropMarker { folder: p }, Reply::Done(answer))
            == (PhaseView::DropFolder { folder: p }),
        phase_next(dir, Phase::DropAside { target: p, number }, Reply::Done(answer)) == done(
            Outcome::Unit,
        ),
        phase_next(
            dir,
            Phase::Prune { at: Pruning { root, dir: p, empty: true }, stamp },
            Reply::Done(Err(fault)),
        ) == pruned(stamp),
        phase_next(
            dir,
            Phase::Prune { at: Pruning { root, dir: p, empty: false }, stamp },
            Reply::Entries(Err(fault)),
        ) == pruned(stamp),
        pruned(None) == done(Outcome::Unit),
{
}

/// A save that cannot write its staging file reports that; one that cannot put it in its place
/// removes it, and reports the fault of putting it there, whatever comes of the removal.
pub proof fn a_save_reports_its_first_fault(
    dir: Seq<char>,
    p: Path,
    staging: Path,
    bytes: Seq<u8>,
    stamp: bool,
    fault: Fault,
    answer: Result<(), Fault>,
)
    ensures
        ({
            let publish = Phase::Save { at: Saving::Publish { target: p, staging }, target: p, stamp };
            let discard = phase_next(dir, publish, Reply::Done(Err(fault)));
            &&& phase_next(
                dir,
                Phase::Save { at: saving(p, bytes), target: p, stamp },
                Reply::Done(Err(fault)),
            ) == failed(fault.text)
            &&& phase_request(discard) == Some(Request::RemoveFile(staging))
            &&& phase_next(dir, discard, Reply::Done(answer)) == failed(fault.text)
        }),
{
}

/// A rename that fails is made up for by a copy, behind which the old file is removed, whatever comes
/// of that; where the copy fails too, the fault of the rename is reported. Two names of one file are
/// never copied onto each other.
pub proof fn a_rename_that_fails_is_made_by_a_copy(
    dir: Seq<char>,
    from: Path,
    to: Path,
    fault: Fault,
    later: Fault,
    answer: Result<(), Fault>,
)
    ensures
        ({
            let other = folder_ready(AfterFolder::Rename { from, to, same: false });
            let same = folder_ready(AfterFolder::Rename { from, to, same: true });
            let copy = phase_next(dir, other, Reply::Done(Err(fault)));
            let clear = phase_next(dir, copy, Reply::Done(Ok(())));
            &&& phase_request(other) == Some(Request::Rename(from, to))
            &&& phase_request(same) == Some(Request::Rename(from, to))
            &&& phase_next(dir, same, Reply::Done(Err(fault))) == failed(fault.text)
            &&& phase_request(copy) == Some(Request::Copy(from, to))
            &&& phase_next(dir, copy, Reply::Done(Err(later))) == failed(fault.text)
            &&& phase_request(clear) == Some(Request::RemoveFile(from))
            &&& phase_next(dir, clear, Reply::Done(answer)) == phase_next(
                dir,
                other,
                Reply::Done(Ok(())),
            )
        }),
{
}

/// A link leads where it says: from the root where it begins there, and else from the folder that
/// holds it; a `.` in front adds nothing.
pub proof fn a_link_leads_from_its_folder(folder: Path, name: Seq<u8>, to: Path)
    ensures
        ({
            let link = folder.push(Part::Name(name));
            &&& to.len() > 0 && to[0] is Root ==> led(link, to) == to
            &&& to.len() > 0 && to[0] is Here ==> led(link, to) == folder + to.skip(1)
            &&& to.len() == 0 || to[0] is Up || to[0] is Name ==> led(link, to) == folder + to
        }),
{
    let link = folder.push(Part::Name(name));
    assert(link.drop_last() =~= folder);
    assert(to.len() > 0 ==> to.drop_first() =~= to.skip(1));
}

/// A link that leads to something missing is followed to where it leads, 40 times at most; a link
/// after that is refused. A step up behind something missing cannot be judged and is refused too.
pub proof fn links_are_followed_so_often(
    dir: Seq<char>,
    name: Seq<char>,
    c: Judging,
    canon_root: Path,
    probe: Path,
    to: Path,
    hops: u32,
    fault: Fault,
)
    requires
        fault.not_found,
    ensures
        ({
            let refused = ConfineStep::<Path, Seq<u8>, Seq<char>>::Refused(
                "invalid note path: \""@ + shown(c.text) + "\""@,
            );
            let look = Confinement { stage: ConfineStage::Look { canon_root, probe, hops }, ..c };
            let up = probe.push(Part::Up);
            let look_up = Confinement {
                stage: ConfineStage::Look { canon_root, probe: up, hops },
                ..c
            };
            &&& judge(confining(dir, name), Reply::Canonical(Ok(canon_root)))
                == ConfineStep::<Path, Seq<u8>, Seq<char>>::More(
                Confinement {
                    stage: ConfineStage::Probe {
                        canon_root,
                        probe: target_of(dir, name),
                        hops: 40,
                    },
                    ..confining(dir, name)
                },
            )
            &&& judge(look, Reply::Link(Ok(Some(to)))) == if hops == 0 {
                refused
            } else {
                ConfineStep::More(
                    Confinement {
                        stage: ConfineStage::Probe {
                            canon_root,
                            probe: led(probe, to),
                            hops: (hops - 1) as u32,
                        },
                        ..c
                    },
                )
            }
            &&& judge(look_up, Reply::Link(Ok(None))) == refused
            &&& judge(look_up, Reply::Link(Err(fault))) == refused
        }),
{
    messages_read(shown(c.text), Seq::empty(), Seq::empty());
}

} // verus!
