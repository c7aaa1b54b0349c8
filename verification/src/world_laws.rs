//! What each command does, from its beginning to its end, on a disk that holds files and folders.

use vstd::prelude::*;

use crate::commands::job_on;
use crate::confine::{confining, ConfineStage, Confinement, Judging, LINK_LIMIT};
use crate::disk_laws::target_of;
use crate::job::{
    done, failed, is_nameless, marker_in, prune_after, pruned, resolved, root_of, JobView, Outcome,
    Phase, PhaseView, StatUse, Task,
};
use crate::listing::NoteFull;
use crate::path::{components, is_file_name, parent_of, Part, Path};
use crate::prune::{holds_sidecars, Pruning};
use crate::resolve::{
    a_named_path_is_longer, escapes, is_below, names_something, resolving_stays_below, staging_of,
    utf8,
};
use crate::rule_laws::messages_read;
use crate::save::{saving, staging_is_beside_the_target, Saving};
use crate::world::{
    are_all_names, can_move, has_folder, is_blocked, is_child, is_empty_folder, is_finite_at,
    is_home, is_honest, is_on_the_way, is_there, is_tidy, is_true_entry, is_true_listing,
    leads_a_step, leads_by_a_step, leads_nowhere_else, leads_on, leads_to, lists_name, moved,
    stepped, was_at, with_file, with_folders, without_file, without_folder, FileState, Running,
    System, World,
};

verus! {

/// A command on a disk, at its beginning.
pub open spec fn started(
    w: World,
    dir: Seq<char>,
    name: Seq<char>,
    task: Task<Path, Seq<u8>, Seq<char>>,
) -> Running {
    Running { world: w, job: job_on(dir, name, task) }
}

/// A command that has ended so.
pub open spec fn ended_with(w: World, dir: Seq<char>, phase: PhaseView) -> Running {
    Running { world: w, job: JobView { dir, phase } }
}

/// Whether the caller-supplied path `name` can be gone by: its text does not lead out of the folder,
/// and no file is where a folder would have to be.
pub open spec fn is_open_path(w: World, dir: Seq<char>, name: Seq<char>) -> bool {
    !escapes(components(utf8(name))) && !is_blocked(w, target_of(dir, name))
}

pub proof fn shorter_is_open(w: World, p: Path, k: int)
    requires
        !is_blocked(w, p),
        0 <= k <= p.len(),
    ensures
        !is_blocked(w, p.take(k)),
        k < p.len() ==> !w.files.contains_key(p.take(k)),
{
    let q = p.take(k);
    if is_blocked(w, q) {
        let j = choose|j: int| 0 <= j < q.len() && w.files.contains_key(#[trigger] q.take(j));
        assert(q.take(j) =~= p.take(j));
    }
}

/// The target of a path lies below the picked folder.
pub proof fn target_is_below(dir: Seq<char>, name: Seq<char>)
    requires
        !escapes(components(utf8(name))),
    ensures
        is_below(root_of(dir), target_of(dir, name)),
        root_of(dir).len() <= target_of(dir, name).len(),
        target_of(dir, name).take(root_of(dir).len() as int) == root_of(dir),
        names_something(name) <==> target_of(dir, name).len() > root_of(dir).len(),
{
    resolving_stays_below(root_of(dir), utf8(name));
    a_named_path_is_longer(root_of(dir), name);
    let root = root_of(dir);
    let target = target_of(dir, name);
    assert(target.take(root.len() as int) =~= root);
}

proof fn probing_lets_through(
    sys: System,
    w: World,
    dir: Seq<char>,
    name: Seq<char>,
    task: Task<Path, Seq<u8>, Seq<char>>,
    c: Judging,
    k: int,
    hops: u32,
)
    requires
        is_home(sys, w, root_of(dir)),
        is_open_path(w, dir, name),
        root_of(dir).len() <= k <= target_of(dir, name).len(),
        c.target == target_of(dir, name),
        c.stage == (ConfineStage::Probe {
            canon_root: (sys.real_of)(root_of(dir)),
            probe: target_of(dir, name).take(k),
            hops,
        }),
    ensures
        leads_to(
            sys,
            ended_with(w, dir, Phase::Resolve { at: c, task }),
            ended_with(w, dir, resolved(dir, task, target_of(dir, name))),
        ),
    decreases k,
{
    let root = root_of(dir);
    let target = target_of(dir, name);
    let probe = target.take(k);
    let canon_root = (sys.real_of)(root);
    let here = ended_with(w, dir, Phase::Resolve { at: c, task });
    let end = ended_with(w, dir, resolved(dir, task, target));
    target_is_below(dir, name);
    assert(root.is_prefix_of(probe)) by {
        assert(probe.subrange(0, root.len() as int) =~= root);
    }
    if is_there(w, probe) {
        assert(canon_root.is_prefix_of((sys.real_of)(probe)));
        assert(stepped(sys, here) == end);
        leads_a_step(sys, here);
    } else {
        assert(k > root.len()) by {
            if k == root.len() {
                assert(probe =~= root);
            }
        }
        shorter_is_open(w, target, k);
        let look = Confinement { stage: ConfineStage::Look { canon_root, probe, hops }, ..c };
        let middle = ended_with(w, dir, Phase::Resolve { at: look, task });
        assert(stepped(sys, here) == middle);
        let up = target.take(k - 1);
        assert(probe.last() == target[k - 1]);
        assert(target[k - 1] is Name);
        assert(probe.drop_last() =~= up);
        let next = Confinement { stage: ConfineStage::Probe { canon_root, probe: up, hops }, ..c };
        let later = ended_with(w, dir, Phase::Resolve { at: next, task });
        assert(stepped(sys, middle) == later);
        probing_lets_through(sys, w, dir, name, task, next, k - 1, hops);
        leads_by_a_step(sys, middle, end);
        leads_by_a_step(sys, here, end);
    }
}

/// A path that really lies inside is let through.
pub proof fn a_good_path_is_let_through(
    sys: System,
    w: World,
    dir: Seq<char>,
    name: Seq<char>,
    task: Task<Path, Seq<u8>, Seq<char>>,
)
    requires
        is_home(sys, w, root_of(dir)),
        is_open_path(w, dir, name),
        !is_nameless(name, task),
    ensures
        leads_to(
            sys,
            started(w, dir, name, task),
            ended_with(w, dir, resolved(dir, task, target_of(dir, name))),
        ),
{
    let target = target_of(dir, name);
    let root = root_of(dir);
    let c = confining(dir, name);
    let canon_root = (sys.real_of)(root);
    let here = started(w, dir, name, task);
    let end = ended_with(w, dir, resolved(dir, task, target));
    target_is_below(dir, name);
    let next = Confinement {
        stage: ConfineStage::Probe { canon_root, probe: target, hops: LINK_LIMIT },
        ..c
    };
    assert(target.take(target.len() as int) =~= target);
    assert(stepped(sys, here) == ended_with(w, dir, Phase::Resolve { at: next, task }));
    probing_lets_through(
        sys,
        w,
        dir,
        name,
        task,
        next,
        target.len() as int,
        LINK_LIMIT,
    );
    leads_by_a_step(sys, here, end);
}

pub proof fn goes_on_from_there(
    sys: System,
    w: World,
    dir: Seq<char>,
    name: Seq<char>,
    task: Task<Path, Seq<u8>, Seq<char>>,
    end: Running,
)
    requires
        is_home(sys, w, root_of(dir)),
        is_open_path(w, dir, name),
        !is_nameless(name, task),
        leads_to(sys, ended_with(w, dir, resolved(dir, task, target_of(dir, name))), end),
    ensures
        leads_to(sys, started(w, dir, name, task), end),
{
    a_good_path_is_let_through(sys, w, dir, name, task);
    leads_on(
        sys,
        started(w, dir, name, task),
        ended_with(w, dir, resolved(dir, task, target_of(dir, name))),
        end,
    );
}

/// The time that is given back for what the metadata reports.
pub open spec fn time_of(modified: Option<u128>) -> u128 {
    match modified {
        Some(ms) => ms,
        None => 0,
    }
}

/// Looking whether something is there tells it, and changes nothing.
pub proof fn existence_is_told(sys: System, w: World, dir: Seq<char>, name: Seq<char>)
    requires
        is_home(sys, w, root_of(dir)),
        is_open_path(w, dir, name),
    ensures
        leads_to(
            sys,
            started(w, dir, name, Task::Exists),
            ended_with(w, dir, done(Outcome::Flag(is_there(w, target_of(dir, name))))),
        ),
{
    let target = target_of(dir, name);
    let here = ended_with(w, dir, resolved(dir, Task::Exists, target));
    let end = ended_with(w, dir, done(Outcome::Flag(is_there(w, target))));
    assert(stepped(sys, here) == end);
    leads_a_step(sys, here);
    goes_on_from_there(sys, w, dir, name, Task::Exists, end);
}

/// The last change that is given back for what is at `p`, if anything is.
pub open spec fn last_change(sys: System, w: World, p: Path) -> Option<u128> {
    if w.files.contains_key(p) {
        Some(time_of(w.files[p].modified))
    } else if w.folders.contains(p) {
        Some(time_of(sys.folder.modified))
    } else {
        None
    }
}

/// The last change of what is there is told as it is reported, and none where nothing is there.
pub proof fn the_last_change_is_told(sys: System, w: World, dir: Seq<char>, name: Seq<char>)
    requires
        is_home(sys, w, root_of(dir)),
        is_open_path(w, dir, name),
    ensures
        leads_to(
            sys,
            started(w, dir, name, Task::Stat),
            ended_with(
                w,
                dir,
                done(Outcome::MaybeStamp(last_change(sys, w, target_of(dir, name)))),
            ),
        ),
{
    let target = target_of(dir, name);
    let here = ended_with(w, dir, resolved(dir, Task::Stat, target));
    let end = ended_with(w, dir, done(Outcome::MaybeStamp(last_change(sys, w, target))));
    assert(stepped(sys, here) == end);
    leads_a_step(sys, here);
    goes_on_from_there(sys, w, dir, name, Task::Stat, end);
}

/// What reading the note at `p` gives: its text with its last change, nothing where nothing is
/// there, and an error where it is no text or no file.
pub open spec fn note_at(sys: System, w: World, p: Path, name: Seq<char>) -> PhaseView {
    if w.files.contains_key(p) {
        let file = w.files[p];
        if vstd::utf8::valid_utf8(file.bytes) {
            done(
                Outcome::Note(
                    Some(
                        NoteFull {
                            name,
                            modified_ms: time_of(file.modified),
                            content: vstd::utf8::decode_utf8(file.bytes),
                        },
                    ),
                ),
            )
        } else {
            failed("\""@ + name + "\" is not valid UTF-8 text"@)
        }
    } else if w.folders.contains(p) {
        failed(sys.impossible)
    } else {
        done(Outcome::Note(None))
    }
}

/// Reading a note gives its whole text and its last change, whatever its size, its flags and where
/// it lies; and it changes nothing.
pub proof fn a_note_is_read(sys: System, w: World, dir: Seq<char>, name: Seq<char>)
    requires
        is_home(sys, w, root_of(dir)),
        is_open_path(w, dir, name),
    ensures
        leads_to(
            sys,
            started(w, dir, name, Task::ReadNote { name }),
            ended_with(w, dir, note_at(sys, w, target_of(dir, name), name)),
        ),
{
    let target = target_of(dir, name);
    let task = Task::ReadNote { name };
    let here = ended_with(w, dir, resolved(dir, task, target));
    let end = ended_with(w, dir, note_at(sys, w, target, name));
    messages_read(name, Seq::empty(), Seq::empty());
    let next = stepped(sys, here);
    if is_there(w, target) {
        let ms = if w.files.contains_key(target) {
            time_of(w.files[target].modified)
        } else {
            time_of(sys.folder.modified)
        };
        assert(next == ended_with(
            w,
            dir,
            Phase::ReadNote { target, name, modified_ms: ms },
        ));
        assert(stepped(sys, next) == end);
        leads_a_step(sys, next);
        leads_by_a_step(sys, here, end);
    } else {
        assert(next == end);
        leads_a_step(sys, here);
    }
    goes_on_from_there(sys, w, dir, name, task, end);
}

/// What reading the attachment at `p` gives.
pub open spec fn attachment_at(sys: System, w: World, p: Path) -> PhaseView {
    if w.files.contains_key(p) {
        done(Outcome::Bytes(Some(w.files[p].bytes)))
    } else if w.folders.contains(p) {
        failed(sys.impossible)
    } else {
        done(Outcome::Bytes(None))
    }
}

/// Reading an attachment gives all of its bytes, and nothing where nothing is there.
pub proof fn an_attachment_is_read(sys: System, w: World, dir: Seq<char>, name: Seq<char>)
    requires
        is_home(sys, w, root_of(dir)),
        is_open_path(w, dir, name),
    ensures
        leads_to(
            sys,
            started(w, dir, name, Task::ReadAttachment),
            ended_with(w, dir, attachment_at(sys, w, target_of(dir, name))),
        ),
{
    let target = target_of(dir, name);
    let here = ended_with(w, dir, resolved(dir, Task::ReadAttachment, target));
    let end = ended_with(w, dir, attachment_at(sys, w, target));
    assert(stepped(sys, here) == end);
    leads_a_step(sys, here);
    goes_on_from_there(sys, w, dir, name, Task::ReadAttachment, end);
}

/// What showing the entry at `p` in the file manager comes to.
pub open spec fn revealed(sys: System, w: World, p: Path, name: Seq<char>) -> PhaseView {
    if !is_there(w, p) {
        failed("\""@ + name + "\" no longer exists"@)
    } else if (sys.shows)(p) {
        done(Outcome::Unit)
    } else {
        failed("Finder could not reveal \""@ + name + "\""@)
    }
}

/// What is there is shown in the file manager, and what is not there is reported.
pub proof fn an_entry_is_revealed(sys: System, w: World, dir: Seq<char>, name: Seq<char>)
    requires
        is_home(sys, w, root_of(dir)),
        is_open_path(w, dir, name),
    ensures
        leads_to(
            sys,
            started(w, dir, name, Task::Reveal { name }),
            ended_with(w, dir, revealed(sys, w, target_of(dir, name), name)),
        ),
{
    let target = target_of(dir, name);
    let task = Task::Reveal { name };
    let here = ended_with(w, dir, resolved(dir, task, target));
    let end = ended_with(w, dir, revealed(sys, w, target, name));
    messages_read(name, Seq::empty(), Seq::empty());
    let next = stepped(sys, here);
    if is_there(w, target) {
        assert(next == ended_with(w, dir, Phase::Reveal { target, name }));
        assert(stepped(sys, next) == end);
        leads_a_step(sys, next);
        leads_by_a_step(sys, here, end);
    } else {
        assert(next == end);
        leads_a_step(sys, here);
    }
    goes_on_from_there(sys, w, dir, name, task, end);
}

pub proof fn folders_are_made(w: World, root: Path, p: Path)
    requires
        w.folders.contains(root),
        root.is_prefix_of(p),
        !is_blocked(w, p),
    ensures
        with_folders(w, p).folders.contains(p),
        with_folders(w, p).folders.contains(root),
        with_folders(w, p).files == w.files,
        !is_blocked(with_folders(w, p), p),
{
    assert(p.subrange(0, p.len() as int) =~= p);
    assert(is_on_the_way(w, p, p));
    if is_blocked(with_folders(w, p), p) {
        let j = choose|j: int|
            0 <= j < p.len() && with_folders(w, p).files.contains_key(#[trigger] p.take(j));
        assert(w.files.contains_key(p.take(j)));
    }
}

/// The disk after `bytes` were saved to `target`: all folders on the way are there, the file holds
/// the bytes and has the time of the save, its staging file is gone, and nothing else has changed.
pub open spec fn with_saved(sys: System, w: World, target: Path, bytes: Seq<u8>) -> World {
    let made = with_folders(w, target.drop_last());
    World {
        files: w.files.remove(staging_of(target)).insert(
            target,
            FileState { bytes, modified: sys.now, flags: 0 },
        ),
        folders: made.folders,
    }
}

proof fn a_save_from_its_staging(
    sys: System,
    w: World,
    dir: Seq<char>,
    target: Path,
    bytes: Seq<u8>,
    stamp: bool,
)
    requires
        has_folder(w, target),
        has_folder(w, staging_of(target)),
        !w.folders.contains(target),
        !w.folders.contains(staging_of(target)),
    ensures
        leads_to(
            sys,
            ended_with(w, dir, Phase::Save { at: saving(target, bytes), target, stamp }),
            ended_with(
                World {
                    files: w.files.remove(staging_of(target)).insert(
                        target,
                        FileState { bytes, modified: sys.now, flags: 0 },
                    ),
                    ..w
                },
                dir,
                if stamp {
                    done(Outcome::Stamp(time_of(sys.now)))
                } else {
                    done(Outcome::Unit)
                },
            ),
        ),
{
    let staging = staging_of(target);
    staging_is_beside_the_target(target);
    let file = FileState { bytes, modified: sys.now, flags: 0 };
    let w1 = with_file(w, staging, file);
    let w2 = World { files: w.files.remove(staging).insert(target, file), ..w };
    let s0 = ended_with(w, dir, Phase::Save { at: saving(target, bytes), target, stamp });
    let s1 = ended_with(
        w1,
        dir,
        Phase::Save { at: Saving::Publish { target, staging }, target, stamp },
    );
    assert(stepped(sys, s0) == s1);
    assert(can_move(w1, staging, target));
    assert(moved(w1, staging, target) =~= w2);
    if stamp {
        let s2 = ended_with(w2, dir, Phase::Stat { target, why: StatUse::Stamp });
        let s3 = ended_with(w2, dir, done(Outcome::Stamp(time_of(sys.now))));
        assert(stepped(sys, s1) == s2);
        assert(stepped(sys, s2) == s3);
        leads_a_step(sys, s2);
        leads_by_a_step(sys, s1, s3);
        leads_by_a_step(sys, s0, s3);
    } else {
        let s2 = ended_with(w2, dir, done(Outcome::Unit));
        assert(stepped(sys, s1) == s2);
        leads_a_step(sys, s1);
        leads_by_a_step(sys, s0, s2);
    }
}

/// Saving a file, a note or an attachment, at any depth, makes the folders that are missing, puts
/// all of the bytes there and leaves everything else as it was. It gives back the time that the
/// system reports for the file.
pub proof fn a_file_is_saved(
    sys: System,
    w: World,
    dir: Seq<char>,
    name: Seq<char>,
    bytes: Seq<u8>,
    stamp: bool,
)
    requires
        is_home(sys, w, root_of(dir)),
        is_open_path(w, dir, name),
        names_something(name),
        !w.folders.contains(target_of(dir, name)),
        !w.folders.contains(staging_of(target_of(dir, name))),
    ensures
        leads_to(
            sys,
            started(w, dir, name, Task::Save { bytes, stamp }),
            ended_with(
                with_saved(sys, w, target_of(dir, name), bytes),
                dir,
                if stamp {
                    done(Outcome::Stamp(time_of(sys.now)))
                } else {
                    done(Outcome::Unit)
                },
            ),
        ),
{
    let target = target_of(dir, name);
    let root = root_of(dir);
    let task = Task::Save { bytes, stamp };
    let staging = staging_of(target);
    target_is_below(dir, name);
    staging_is_beside_the_target(target);
    assert(target[target.len() - 1] is Name);
    let folder = target.drop_last();
    assert(parent_of(target) == Some(folder));
    assert(folder =~= target.take(target.len() - 1));
    shorter_is_open(w, target, target.len() - 1);
    assert(root.is_prefix_of(folder)) by {
        assert(folder.subrange(0, root.len() as int) =~= root);
    }
    folders_are_made(w, root, folder);
    let made = with_folders(w, folder);
    let s0 = ended_with(w, dir, resolved(dir, task, target));
    let s1 = ended_with(made, dir, Phase::Save { at: saving(target, bytes), target, stamp });
    let end = ended_with(
        with_saved(sys, w, target, bytes),
        dir,
        if stamp {
            done(Outcome::Stamp(time_of(sys.now)))
        } else {
            done(Outcome::Unit)
        },
    );
    assert(stepped(sys, s0) == s1);
    assert(!is_on_the_way(w, folder, target));
    assert(!is_on_the_way(w, folder, staging));
    a_save_from_its_staging(sys, made, dir, target, bytes, stamp);
    leads_by_a_step(sys, s0, end);
    goes_on_from_there(sys, w, dir, name, task, end);
}

/// Creating a folder makes it and those above it that are missing, and puts an empty marker in it;
/// nothing else changes.
pub proof fn a_folder_is_created(sys: System, w: World, dir: Seq<char>, path: Seq<char>)
    requires
        is_home(sys, w, root_of(dir)),
        is_open_path(w, dir, path),
        !w.files.contains_key(target_of(dir, path)),
        !w.folders.contains(marker_in(target_of(dir, path))),
        !w.folders.contains(staging_of(marker_in(target_of(dir, path)))),
    ensures
        leads_to(
            sys,
            started(w, dir, path, Task::CreateFolder),
            ended_with(
                with_saved(sys, w, marker_in(target_of(dir, path)), Seq::empty()),
                dir,
                done(Outcome::Unit),
            ),
        ),
{
    let target = target_of(dir, path);
    let root = root_of(dir);
    let marker = marker_in(target);
    let staging = staging_of(marker);
    target_is_below(dir, path);
    staging_is_beside_the_target(marker);
    assert(marker.drop_last() =~= target);
    folders_are_made(w, root, target);
    let made = with_folders(w, target);
    let s0 = ended_with(w, dir, resolved(dir, Task::CreateFolder, target));
    let s1 = ended_with(
        made,
        dir,
        Phase::Save { at: saving(marker, Seq::empty()), target: marker, stamp: false },
    );
    let end = ended_with(with_saved(sys, w, marker, Seq::empty()), dir, done(Outcome::Unit));
    assert(stepped(sys, s0) == s1);
    assert(!is_on_the_way(w, target, marker));
    assert(!is_on_the_way(w, target, staging));
    a_save_from_its_staging(sys, made, dir, marker, Seq::empty(), false);
    leads_by_a_step(sys, s0, end);
    goes_on_from_there(sys, w, dir, path, Task::CreateFolder, end);
}

pub proof fn fewer_is_tidy(w: World, v: World)
    requires
        is_tidy(w),
        forall|p: Path| #[trigger] v.files.contains_key(p) ==> w.files.contains_key(p),
        forall|p: Path| #[trigger] v.folders.contains(p) ==> w.folders.contains(p),
    ensures
        is_tidy(v),
{
    assert forall|dir: Path, name: Seq<u8>| #[trigger] is_child(v, dir, name) implies is_file_name(
        name,
    ) && is_child(w, dir, name) by {
        assert(is_child(w, dir, name));
    }
    assert forall|dir: Path| #[trigger] is_finite_at(v, dir) by {
        assert(is_finite_at(w, dir));
        let names = choose|names: Seq<Seq<u8>>| are_all_names(w, dir, names);
        assert(are_all_names(v, dir, names));
    }
}

/// Whether each name of the path can name an entry.
pub open spec fn has_good_names(p: Path) -> bool {
    forall|i: int| 0 <= i < p.len() ==> (#[trigger] p[i] matches Part::Name(n) ==> is_file_name(n))
}

pub proof fn targets_have_good_names(dir: Seq<char>, name: Seq<char>)
    requires
        !escapes(components(utf8(name))),
    ensures
        has_good_names(target_of(dir, name)),
{
    let root = root_of(dir);
    let p = target_of(dir, name);
    target_is_below(dir, name);
    crate::path::components_form_a_path(utf8(dir));
    assert forall|i: int| 0 <= i < p.len() implies (#[trigger] p[i] matches Part::Name(n)
        ==> is_file_name(n)) by {
        if i < root.len() {
            assert(p[i] == root[i]);
        }
    }
}

pub proof fn made_folders_are_tidy(w: World, p: Path)
    requires
        is_tidy(w),
        has_good_names(p),
        !is_blocked(w, p),
        !w.files.contains_key(p),
    ensures
        is_tidy(with_folders(w, p)),
{
    let v = with_folders(w, p);
    assert forall|q: Path| #[trigger] v.files.contains_key(q) implies !v.folders.contains(q) by {
        if is_on_the_way(w, p, q) {
            assert(q =~= p.take(q.len() as int));
            shorter_is_open(w, p, q.len() as int);
            if q.len() == p.len() {
                assert(q =~= p);
            }
        }
    }
    assert forall|dir: Path, name: Seq<u8>| #[trigger] is_child(v, dir, name) implies is_file_name(
        name,
    ) by {
        let q = dir.push(Part::Name(name));
        if !is_child(w, dir, name) {
            assert(is_on_the_way(w, p, q));
            assert(p[dir.len() as int] == q[dir.len() as int]);
        }
    }
    assert forall|dir: Path| #[trigger] is_finite_at(v, dir) by {
        assert(is_finite_at(w, dir));
        let names = choose|names: Seq<Seq<u8>>| are_all_names(w, dir, names);
        let n = dir.len() as int;
        let extra = if n < p.len() {
            match p[n] {
                Part::Name(name) => name,
                _ => Seq::empty(),
            }
        } else {
            Seq::empty()
        };
        let more = names.push(extra);
        assert(more[names.len() as int] == extra);
        assert forall|name: Seq<u8>| #[trigger] is_child(v, dir, name) implies more.contains(
            name,
        ) by {
            let q = dir.push(Part::Name(name));
            if is_child(w, dir, name) {
                assert(names.contains(name));
                let k = choose|k: int| 0 <= k < names.len() && names[k] == name;
                assert(more[k] == name);
            } else {
                assert(is_on_the_way(w, p, q));
                assert(p[n] == q[n]);
            }
        }
        assert(are_all_names(v, dir, more));
    }
}

pub proof fn moved_is_tidy(w: World, a: Path, b: Path)
    requires
        is_tidy(w),
        has_good_names(b),
        can_move(w, a, b),
    ensures
        is_tidy(moved(w, a, b)),
{
    let v = moved(w, a, b);
    if a != b {
        let is_file = w.files.contains_key(a);
        assert forall|q: Path| #[trigger] v.files.contains_key(q) implies !v.folders.contains(q) by {
            if !is_file {
                if b.is_prefix_of(q) {
                    assert(w.files.contains_key(was_at(a, b, q)));
                } else {
                    assert(w.files.contains_key(q));
                }
            } else if q != b {
                assert(w.files.contains_key(q));
            }
        }
        assert forall|dir: Path, name: Seq<u8>| #[trigger]
            is_child(v, dir, name) implies is_file_name(name) by {
            let q = dir.push(Part::Name(name));
            if q == b {
                assert(b[b.len() - 1] == Part::Name(name));
            } else if !is_file && b.is_prefix_of(q) {
                assert(b.is_prefix_of(dir)) by {
                    assert(b.len() < q.len()) by {
                        if b.len() == q.len() {
                            assert(q.subrange(0, b.len() as int) =~= q);
                        }
                    }
                    assert(dir.subrange(0, b.len() as int) =~= q.subrange(0, b.len() as int));
                }
                let old = was_at(a, b, dir);
                assert(was_at(a, b, q) =~= old.push(Part::Name(name)));
                assert(is_child(w, old, name));
            } else {
                assert(is_child(w, dir, name));
            }
        }
        assert forall|dir: Path| #[trigger] is_finite_at(v, dir) by {
            let inner = !is_file && b.is_prefix_of(dir);
            let old = if inner {
                was_at(a, b, dir)
            } else {
                dir
            };
            assert(is_finite_at(w, old));
            let names = choose|names: Seq<Seq<u8>>| are_all_names(w, old, names);
            let extra = match b.last() {
                Part::Name(name) => name,
                _ => Seq::empty(),
            };
            let more = names.push(extra);
            assert(more[names.len() as int] == extra);
            assert forall|name: Seq<u8>| #[trigger] is_child(v, dir, name) implies more.contains(
                name,
            ) by {
                let q = dir.push(Part::Name(name));
                if q == b {
                    assert(b.last() == Part::Name(name));
                } else {
                    if inner {
                        assert(b.is_prefix_of(q)) by {
                            assert(q.subrange(0, b.len() as int) =~= dir.subrange(
                                0,
                                b.len() as int,
                            ));
                        }
                        assert(was_at(a, b, q) =~= old.push(Part::Name(name)));
                    } else if !is_file && b.is_prefix_of(q) {
                        assert(b.len() < q.len()) by {
                            if b.len() == q.len() {
                                assert(q.subrange(0, b.len() as int) =~= q);
                            }
                        }
                        assert(dir.subrange(0, b.len() as int) =~= q.subrange(0, b.len() as int));
                    }
                    assert(is_child(w, old, name));
                    assert(names.contains(name));
                    let k = choose|k: int| 0 <= k < names.len() && names[k] == name;
                    assert(more[k] == name);
                }
            }
            assert(are_all_names(v, dir, more));
        }
    }
}

/// The disk without the folder `d` and those above it, below `root`, that hold nothing once the one
/// below them is gone.
pub open spec fn emptied(w: World, root: Path, d: Path) -> World
    decreases d.len(),
{
    if root.is_prefix_of(d) && root.len() < d.len() && w.folders.contains(d) && is_empty_folder(
        w,
        d,
    ) {
        emptied(without_folder(w, d), root, d.drop_last())
    } else {
        w
    }
}

/// Pruning touches no file, makes no folder, and removes no folder but those from `d` upward, below
/// the root, and of these none that something is left in.
pub proof fn pruning_takes_only_empty_folders(w: World, root: Path, d: Path, p: Path)
    ensures
        ({
            let v = emptied(w, root, d);
            &&& v.files == w.files
            &&& v.folders.contains(p) ==> w.folders.contains(p)
            &&& w.folders.contains(p) && !v.folders.contains(p) ==> p.is_prefix_of(d)
                && root.is_prefix_of(p) && root.len() < p.len() && is_empty_folder(v, p)
            &&& root.is_prefix_of(d) && root.len() < d.len() && w.folders.contains(d)
                && is_empty_folder(w, d) ==> !v.folders.contains(d)
        }),
    decreases d.len(),
{
    if root.is_prefix_of(d) && root.len() < d.len() && w.folders.contains(d) && is_empty_folder(
        w,
        d,
    ) {
        let next = without_folder(w, d);
        let up = d.drop_last();
        pruning_takes_only_empty_folders(next, root, up, p);
        pruning_takes_only_empty_folders(next, root, up, d);
        let v = emptied(next, root, up);
        if next.folders.contains(p) && !v.folders.contains(p) {
            assert(p.is_prefix_of(d)) by {
                assert(d.subrange(0, p.len() as int) =~= up.subrange(0, p.len() as int));
            }
        }
        assert(d.subrange(0, d.len() as int) =~= d);
        assert(is_empty_folder(v, d)) by {
            assert forall|name: Seq<u8>| !#[trigger] is_child(v, d, name) by {
                assert(!is_child(w, d, name));
                pruning_takes_only_empty_folders(next, root, up, d.push(Part::Name(name)));
            }
        }
    }
}

pub proof fn an_empty_folder_is_listed_so(sys: System, w: World, dir: Path)
    requires
        is_honest(sys),
        is_tidy(w),
        w.folders.contains(dir),
    ensures
        ({
            let list = (sys.lists)(w, dir);
            &&& is_true_listing(sys, w, dir, list)
            &&& list.len() == 0 <==> is_empty_folder(w, dir)
        }),
{
    let list = (sys.lists)(w, dir);
    assert(is_true_listing(sys, w, dir, list));
    if list.len() > 0 {
        assert(list[0] matches Ok(e) && is_true_entry(sys, w, dir, e));
        if let Ok(e) = list[0] {
            assert(is_child(w, dir, e.name));
        }
    } else {
        assert forall|name: Seq<u8>| !#[trigger] is_child(w, dir, name) by {
            if is_child(w, dir, name) {
                assert(lists_name(list, name));
            }
        }
    }
}

proof fn a_prune_empties(
    sys: System,
    w: World,
    dir: Seq<char>,
    d: Path,
    stamp: Option<Path>,
)
    requires
        is_honest(sys),
        is_tidy(w),
        is_below(root_of(dir), d),
        d.len() > root_of(dir).len(),
    ensures
        leads_to(
            sys,
            ended_with(
                w,
                dir,
                Phase::Prune { at: Pruning { root: root_of(dir), dir: d, empty: false }, stamp },
            ),
            ended_with(emptied(w, root_of(dir), d), dir, pruned(stamp)),
        ),
    decreases d.len(),
{
    let root = root_of(dir);
    let at = Pruning { root, dir: d, empty: false };
    let full = Pruning { root, dir: d, empty: true };
    let s0 = ended_with(w, dir, Phase::Prune { at, stamp });
    let s1 = ended_with(w, dir, Phase::Prune { at: full, stamp });
    let end = ended_with(emptied(w, root, d), dir, pruned(stamp));
    if !w.folders.contains(d) {
        assert(stepped(sys, s0) == end);
        leads_a_step(sys, s0);
    } else {
        an_empty_folder_is_listed_so(sys, w, d);
        let list = (sys.lists)(w, d);
        if holds_sidecars(list) {
            assert(stepped(sys, s0) == s1);
            if is_empty_folder(w, d) {
                let next = without_folder(w, d);
                let up = d.drop_last();
                assert(d[d.len() - 1] is Name);
                assert(parent_of(d) == Some(up));
                fewer_is_tidy(w, next);
                if up.len() > root.len() {
                    assert(is_below(root, up)) by {
                        assert(up.subrange(0, root.len() as int) =~= d.subrange(
                            0,
                            root.len() as int,
                        ));
                        assert forall|i: int| root.len() <= i < up.len() implies (
                        #[trigger] up[i] matches Part::Name(n) && is_file_name(n)) by {
                            assert(up[i] == d[i]);
                        }
                    }
                    let later = ended_with(
                        next,
                        dir,
                        Phase::Prune { at: Pruning { root, dir: up, empty: false }, stamp },
                    );
                    assert(up != root);
                    assert(stepped(sys, s1) == later);
                    a_prune_empties(sys, next, dir, up, stamp);
                    leads_by_a_step(sys, s1, end);
                } else {
                    assert(up =~= root) by {
                        assert(up =~= d.subrange(0, root.len() as int));
                    }
                    assert(emptied(next, root, up) == next);
                    assert(stepped(sys, s1) == end);
                    leads_a_step(sys, s1);
                }
            } else {
                assert(stepped(sys, s1) == end);
                leads_a_step(sys, s1);
            }
            leads_by_a_step(sys, s0, end);
        } else {
            assert(!is_empty_folder(w, d));
            assert(stepped(sys, s0) == end);
            leads_a_step(sys, s0);
        }
    }
}

/// What follows when `gone` has left its folder.
pub proof fn pruning_follows(
    sys: System,
    w: World,
    dir: Seq<char>,
    gone: Path,
    stamp: Option<Path>,
)
    requires
        is_honest(sys),
        is_tidy(w),
        is_below(root_of(dir), gone),
        gone.len() > root_of(dir).len(),
    ensures
        leads_to(
            sys,
            ended_with(w, dir, prune_after(dir, gone, stamp)),
            ended_with(emptied(w, root_of(dir), gone.drop_last()), dir, pruned(stamp)),
        ),
{
    let root = root_of(dir);
    let folder = gone.drop_last();
    assert(gone[gone.len() - 1] is Name);
    assert(parent_of(gone) == Some(folder));
    assert(root.is_prefix_of(folder)) by {
        assert(folder.subrange(0, root.len() as int) =~= gone.subrange(0, root.len() as int));
    }
    if folder.len() > root.len() {
        assert(is_below(root, folder)) by {
            assert forall|i: int| root.len() <= i < folder.len() implies (
            #[trigger] folder[i] matches Part::Name(n) && is_file_name(n)) by {
                assert(folder[i] == gone[i]);
            }
        }
        assert(folder != root);
        a_prune_empties(sys, w, dir, folder, stamp);
    } else {
        assert(folder =~= root) by {
            assert(root =~= folder.subrange(0, root.len() as int));
        }
        leads_nowhere_else(sys, ended_with(w, dir, pruned(stamp)));
    }
}

/// What removing the note at `p` leaves of the disk: all but the file and the folders that it leaves
/// empty.
pub open spec fn without_note(w: World, root: Path, p: Path) -> World {
    emptied(without_file(w, p), root, p.drop_last())
}

/// A note that is there is removed, and with it the folders that are left empty; what is missing, or
/// is no file, is reported, and nothing changes.
pub proof fn a_note_is_removed(sys: System, w: World, dir: Seq<char>, name: Seq<char>)
    requires
        is_honest(sys),
        is_tidy(w),
        is_home(sys, w, root_of(dir)),
        is_open_path(w, dir, name),
    ensures
        ({
            let target = target_of(dir, name);
            leads_to(
                sys,
                started(w, dir, name, Task::RemoveNote),
                if w.files.contains_key(target) {
                    ended_with(without_note(w, root_of(dir), target), dir, done(Outcome::Unit))
                } else if w.folders.contains(target) {
                    ended_with(w, dir, failed(sys.impossible))
                } else {
                    ended_with(w, dir, failed(sys.missing))
                },
            )
        }),
{
    let target = target_of(dir, name);
    let root = root_of(dir);
    let task = Task::RemoveNote;
    let s0 = ended_with(w, dir, resolved(dir, task, target));
    target_is_below(dir, name);
    if w.files.contains_key(target) {
        assert(target.len() > root.len()) by {
            if target.len() == root.len() {
                assert(target.take(root.len() as int) =~= target);
            }
        }
        let w1 = without_file(w, target);
        fewer_is_tidy(w, w1);
        let s1 = ended_with(w1, dir, prune_after(dir, target, None));
        let end = ended_with(without_note(w, root, target), dir, done(Outcome::Unit));
        assert(stepped(sys, s0) == s1);
        pruning_follows(sys, w1, dir, target, None);
        leads_by_a_step(sys, s0, end);
        goes_on_from_there(sys, w, dir, name, task, end);
    } else {
        assert(without_file(w, target) =~= w);
        let end = if w.folders.contains(target) {
            ended_with(w, dir, failed(sys.impossible))
        } else {
            ended_with(w, dir, failed(sys.missing))
        };
        assert(stepped(sys, s0) == end);
        leads_a_step(sys, s0);
        goes_on_from_there(sys, w, dir, name, task, end);
    }
}

/// How removing the attachment at `p` ends: the file goes, and nothing else; what is missing needs no
/// removal, and a folder stays.
pub open spec fn attachment_removal_end(sys: System, w: World, dir: Seq<char>, p: Path) -> Running {
    if w.folders.contains(p) && !w.files.contains_key(p) {
        ended_with(w, dir, failed(sys.impossible))
    } else {
        ended_with(without_file(w, p), dir, done(Outcome::Unit))
    }
}

/// An attachment is removed, and nothing else; one that is missing needs no removal.
pub proof fn an_attachment_is_removed(sys: System, w: World, dir: Seq<char>, name: Seq<char>)
    requires
        is_home(sys, w, root_of(dir)),
        is_open_path(w, dir, name),
    ensures
        leads_to(
            sys,
            started(w, dir, name, Task::RemoveAttachment),
            attachment_removal_end(sys, w, dir, target_of(dir, name)),
        ),
{
    let target = target_of(dir, name);
    let task = Task::RemoveAttachment;
    let s0 = ended_with(w, dir, resolved(dir, task, target));
    let end = attachment_removal_end(sys, w, dir, target);
    if !w.files.contains_key(target) {
        assert(without_file(w, target) =~= w);
    }
    assert(stepped(sys, s0) == end);
    leads_a_step(sys, s0);
    goes_on_from_there(sys, w, dir, name, task, end);
}

} // verus!
