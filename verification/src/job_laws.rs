//! Where commands reach: nothing but the picked folder.

use vstd::prelude::*;

use crate::commands::{job_on, walk_job};
use crate::confine::{
    confine_request, confining, hops_left, judge, judged_by, probed, still_answer, ConfineStep,
    Judged, Judging, Links, RealPaths,
};
use crate::fsio::{modified_of, Fault, FileMeta, FsRequest, IoFault, Listing, Reply, Request};
use crate::listing::only_a_marked_folder_is_removable;
use crate::job::{
    already_exists, attachments_of, begun, done, done_read, failed, folder_ready, is_nameless,
    job_next, note_read, phase_next, phase_request, prune_after, resolved, root_of, with_parent,
    with_room, AfterFolder, ExistsUse, Flat, JobView, Outcome, Phase, PhaseView, Task,
};
use crate::names::{ATTACHMENTS_DIR, FOLDER_MARKER};
use crate::path::{components, is_file_name, parent_of, Part, Path, DOT, SLASH};
use crate::prune::{prune_next, prune_reaches};
use crate::relocate::{move_request, MovingView};
use crate::resolve::{
    a_named_path_is_longer, aside_is_beside_the_folder, aside_of, escapes, is_below,
    names_something, refusal, resolving_stays_below, staging_of, utf8, within, WRITE_TMP_SUFFIX,
};
use crate::save::{save_request, SavingView};
use crate::walk::{
    look, settled, todos, walk_next, walk_request, Asked, FoundView, Look, TodoView, WalkKind,
    WalkStepView, WalkView,
};
use crate::walk_laws::StillDisk;

verus! {

/// Whether `path` lies below `base` and is not it.
pub open spec fn is_strictly_below(base: Path, path: Path) -> bool {
    is_below(base, path) && path.len() > base.len()
}

/// Whether all entries have names that an entry of a folder can have.
pub open spec fn is_genuine_listing(list: Listing) -> bool {
    forall|i: int| 0 <= i < list.len() ==> ((#[trigger] list[i]) matches Ok(e) ==> is_file_name(e.name))
}

/// Whether an answer can come from an operating system: entries have names that an entry can have.
pub open spec fn is_genuine(reply: Reply) -> bool {
    reply matches Reply::Entries(Ok(list)) ==> is_genuine_listing(list)
}

/// Whether an operation reads and changes nothing outside the folder `root`, going by the text of
/// its paths. Looking up where a path or a link really leads does neither.
pub open spec fn is_inside(root: Path, request: Request) -> bool {
    match request {
        FsRequest::Canonicalize(_) => true,
        FsRequest::ReadLink(_) => true,
        FsRequest::Metadata(p) => is_below(root, p),
        FsRequest::Exists(p) => is_below(root, p),
        FsRequest::ReadDir(p) => is_below(root, p),
        FsRequest::ReadFile(p) => is_below(root, p),
        FsRequest::ReadHead(p, _) => is_below(root, p),
        FsRequest::WriteFile(p, _) => is_below(root, p),
        FsRequest::CreateDirAll(p) => is_below(root, p),
        FsRequest::Rename(a, b) => is_below(root, a) && is_below(root, b),
        FsRequest::Copy(a, b) => is_below(root, a) && is_below(root, b),
        FsRequest::RemoveFile(p) => is_below(root, p),
        FsRequest::RemoveDir(p) => is_below(root, p),
        FsRequest::RemoveDirAll(p) => is_below(root, p),
        FsRequest::Reveal(p) => is_below(root, p),
    }
}

/// Whether what a task goes on with stays in the folder. A file that is to be saved needs a name.
pub open spec fn task_fits(
    dir: Seq<char>,
    task: Task<Path, Seq<u8>, Seq<char>>,
    target: Path,
) -> bool {
    let root = root_of(dir);
    match task {
        Task::Save { .. } => is_strictly_below(root, target),
        Task::RenameTo { from, .. } => is_below(root, from),
        Task::MoveTo { from, .. } => is_below(root, from),
        _ => true,
    }
}

/// Whether the paths of what is done once a folder is there stay in the folder `root`.
pub open spec fn after_fits(root: Path, then_do: AfterFolder<Path, Seq<u8>>) -> bool {
    match then_do {
        AfterFolder::Save { target, .. } => is_strictly_below(root, target),
        AfterFolder::Rename { from, to, .. } => is_below(root, from) && is_below(root, to),
        AfterFolder::Move { from, to } => is_below(root, from) && is_below(root, to),
    }
}

/// Whether the paths of a save stay in the folder `root`.
pub open spec fn save_fits(root: Path, at: SavingView) -> bool {
    is_inside(root, save_request(at)) && match at {
        SavingView::Stage { target, staging, .. } => is_below(root, target) && is_below(
            root,
            staging,
        ),
        _ => true,
    }
}

/// Whether the paths of a move stay in the folder `root`.
pub open spec fn move_fits(root: Path, at: MovingView) -> bool {
    is_inside(root, move_request(at))
}

/// Whether an entry that a walk has still to look at lies in the folder `root`.
pub open spec fn todo_fits(root: Path, t: TodoView) -> bool {
    is_below(root, t.dir) && (t.entry matches Ok(e) ==> is_file_name(e.name))
}

/// Whether all entries that a walk has still to look at lie in the folder `root`.
pub open spec fn todos_fit(root: Path, todo: Seq<TodoView>) -> bool {
    forall|i: int| 0 <= i < todo.len() ==> todo_fits(root, #[trigger] todo[i])
}

/// Whether a walk stays in the folder `root`.
pub open spec fn walk_fits(root: Path, w: WalkView) -> bool {
    is_inside(root, walk_request(w)) && todos_fit(root, w.todo)
}

/// Whether every path that a command holds stays in its folder.
pub open spec fn is_contained(dir: Seq<char>, phase: PhaseView) -> bool {
    let root = root_of(dir);
    match phase {
        Phase::Resolve { at, task } => {
            &&& is_below(root, at.target)
            &&& task_fits(dir, task, at.target)
        },
        Phase::ReadFlat { folder, what } => is_below(root, folder) && (what is Tree
            ==> is_strictly_below(root, folder)),
        Phase::DropMarker { folder } => is_below(root, folder),
        Phase::DropFolder { folder } => is_below(root, folder),
        Phase::LookTree { target } => is_strictly_below(root, target),
        Phase::DropTree { target } => is_below(root, target),
        Phase::PickAside { target, .. } => is_strictly_below(root, target),
        Phase::SetAside { target, .. } => is_strictly_below(root, target),
        Phase::DropAside { target, .. } => is_strictly_below(root, target),
        Phase::RemoveNote { target } => is_below(root, target),
        Phase::RemoveAttachment { target } => is_below(root, target),
        Phase::Stat { target, .. } => is_below(root, target),
        Phase::ReadNote { target, .. } => is_below(root, target),
        Phase::ReadAttachment { target } => is_below(root, target),
        Phase::MakeFolder { folder, then_do } => is_below(root, folder) && after_fits(
            root,
            then_do,
        ),
        Phase::Save { at, target, .. } => save_fits(root, at) && is_below(root, target),
        Phase::Exists { target, why } => is_below(root, target) && match why {
            ExistsUse::RenameFrom { from, .. } => is_below(root, from),
            ExistsUse::MoveFrom { from, .. } => is_below(root, from),
            _ => true,
        },
        Phase::SameFrom { from, target, .. } => is_below(root, from) && is_below(root, target),
        Phase::SameTo { from, target, .. } => is_below(root, from) && is_below(root, target),
        Phase::Rename { at, from, to } => move_fits(root, at) && is_below(root, from) && is_below(
            root,
            to,
        ),
        Phase::Move { from, to } => is_below(root, from) && is_below(root, to),
        Phase::Prune { at, stamp } => is_below(root, at.dir) && at.root == root && (
        stamp matches Some(target) ==> is_below(root, target)),
        Phase::Reveal { target, .. } => is_below(root, target),
        Phase::Walk { at } => walk_fits(root, at),
        Phase::Finished { .. } => true,
    }
}

proof fn marker_is_a_file_name()
    ensures
        is_file_name(utf8(FOLDER_MARKER@)),
        is_file_name(utf8(ATTACHMENTS_DIR@)),
{
    reveal_strlit(".gnkeep");
    reveal_strlit("Attachments");
    vstd::utf8::is_ascii_chars_encode_utf8(FOLDER_MARKER@);
    vstd::utf8::is_ascii_chars_encode_utf8(ATTACHMENTS_DIR@);
    let marker = utf8(FOLDER_MARKER@);
    let folder = utf8(ATTACHMENTS_DIR@);
    assert(marker.len() == 7 && folder.len() == 11);
    assert forall|i: int| 0 <= i < marker.len() implies marker[i] != SLASH by {}
    assert forall|i: int| 0 <= i < folder.len() implies folder[i] != SLASH by {}
}

proof fn below_grows(root: Path, path: Path, name: Seq<u8>)
    requires
        is_below(root, path),
        is_file_name(name),
    ensures
        is_strictly_below(root, path.push(Part::Name(name))),
{
    let longer = path.push(Part::Name(name));
    assert(longer.subrange(0, root.len() as int) =~= path.subrange(0, root.len() as int));
    assert forall|i: int| root.len() <= i < longer.len() implies (#[trigger] longer[i] matches Part::Name(n)
        && is_file_name(n)) by {
        if i < path.len() {
            assert(longer[i] == path[i]);
        }
    }
}

proof fn below_shrinks(root: Path, path: Path)
    requires
        is_strictly_below(root, path),
    ensures
        parent_of(path) == Some(path.drop_last()),
        is_below(root, path.drop_last()),
        path.last() matches Part::Name(n) && is_file_name(n),
{
    let shorter = path.drop_last();
    assert(path[path.len() - 1] is Name);
    assert(shorter.subrange(0, root.len() as int) =~= path.subrange(0, root.len() as int));
    assert forall|i: int| root.len() <= i < shorter.len() implies (#[trigger] shorter[i] matches Part::Name(n)
        && is_file_name(n)) by {
        assert(shorter[i] == path[i]);
    }
}

proof fn staging_is_below(root: Path, target: Path)
    requires
        is_strictly_below(root, target),
    ensures
        is_below(root, staging_of(target)),
{
    below_shrinks(root, target);
    reveal_strlit(".gn-tmp");
    vstd::utf8::is_ascii_chars_encode_utf8(WRITE_TMP_SUFFIX@);
    let suffix = utf8(WRITE_TMP_SUFFIX@);
    assert(suffix.len() == 7);
    assert forall|i: int| 0 <= i < suffix.len() implies suffix[i] != SLASH by {}
    if let Part::Name(name) = target.last() {
        let whole = name + suffix;
        assert(!whole.contains(SLASH)) by {
            if whole.contains(SLASH) {
                let i = choose|i: int| 0 <= i < whole.len() && whole[i] == SLASH;
                if i < name.len() {
                    assert(name[i] == SLASH);
                } else {
                    assert(suffix[i - name.len()] == SLASH);
                }
            }
        }
        assert(whole.len() >= 7);
        assert(seq![DOT].len() == 1 && seq![DOT, DOT].len() == 2);
        below_grows(root, target.drop_last(), whole);
    }
}

proof fn folder_ready_is_contained(dir: Seq<char>, then_do: AfterFolder<Path, Seq<u8>>)
    requires
        after_fits(root_of(dir), then_do),
    ensures
        is_contained(dir, folder_ready(then_do)),
{
    if let AfterFolder::Save { target, .. } = then_do {
        staging_is_below(root_of(dir), target);
    }
}

proof fn with_parent_is_contained(
    dir: Seq<char>,
    target: Path,
    then_do: AfterFolder<Path, Seq<u8>>,
)
    requires
        is_strictly_below(root_of(dir), target),
        after_fits(root_of(dir), then_do),
    ensures
        is_contained(dir, with_parent(target, then_do)),
{
    below_shrinks(root_of(dir), target);
}

proof fn with_room_is_contained(dir: Seq<char>, target: Path, then_do: AfterFolder<Path, Seq<u8>>)
    requires
        is_below(root_of(dir), target),
        after_fits(root_of(dir), then_do),
    ensures
        is_contained(dir, with_room(dir, target, then_do)),
{
    if target.len() > root_of(dir).len() {
        with_parent_is_contained(dir, target, then_do);
    } else {
        folder_ready_is_contained(dir, then_do);
    }
}

proof fn prune_after_is_contained(dir: Seq<char>, gone: Path, stamp: Option<Path>)
    requires
        is_below(root_of(dir), gone),
        stamp matches Some(target) ==> is_below(root_of(dir), target),
    ensures
        is_contained(dir, prune_after(dir, gone, stamp)),
{
    let root = root_of(dir);
    if let Some(folder) = parent_of(gone) {
        if prune_reaches(root, folder) {
            assert(gone.len() > root.len());
            below_shrinks(root, gone);
        }
    }
}

/// Whether what a task brings along stays in the folder `root`.
pub open spec fn brings_inside(root: Path, task: Task<Path, Seq<u8>, Seq<char>>) -> bool {
    match task {
        Task::RenameTo { from, .. } => is_below(root, from),
        Task::MoveTo { from, .. } => is_below(root, from),
        _ => true,
    }
}

/// A command that begins with a caller-supplied path holds only paths of its folder.
proof fn begun_is_contained(
    dir: Seq<char>,
    name: Seq<char>,
    task: Task<Path, Seq<u8>, Seq<char>>,
)
    requires
        brings_inside(root_of(dir), task),
    ensures
        is_contained(dir, begun(dir, name, task)),
{
    if !escapes(components(utf8(name))) {
        resolving_stays_below(root_of(dir), utf8(name));
        a_named_path_is_longer(root_of(dir), name);
    }
}

proof fn aside_is_below(root: Path, target: Path, number: u32)
    requires
        is_strictly_below(root, target),
    ensures
        is_below(root, aside_of(target, number)),
{
    below_shrinks(root, target);
    aside_is_beside_the_folder(target, number);
    let folder = target.drop_last();
    let beside = aside_of(target, number);
    if let Part::Name(name) = beside.last() {
        assert(beside =~= folder.push(Part::Name(name)));
        below_grows(root, folder, name);
    }
}

proof fn resolved_is_contained(
    dir: Seq<char>,
    task: Task<Path, Seq<u8>, Seq<char>>,
    target: Path,
)
    requires
        is_below(root_of(dir), target),
        task_fits(dir, task, target),
    ensures
        is_contained(dir, resolved(dir, task, target)),
{
    match task {
        Task::Save { bytes, stamp } => {
            with_parent_is_contained(dir, target, AfterFolder::Save { target, bytes, stamp });
        },
        Task::RenameFrom { to } => {
            begun_is_contained(dir, to, Task::RenameTo { from: target, to });
        },
        Task::MoveFrom { to } => {
            begun_is_contained(dir, to, Task::MoveTo { from: target, to });
        },
        Task::CreateFolder => {
            marker_is_a_file_name();
            below_grows(root_of(dir), target, utf8(FOLDER_MARKER@));
        },
        _ => {},
    }
}

proof fn settled_fits(
    root: Path,
    kind: WalkKind,
    found: Seq<FoundView>,
    todo: Seq<TodoView>,
)
    requires
        todos_fit(root, todo),
    ensures
        settled(kind, found, todo) matches WalkStepView::More(next) ==> walk_fits(root, next),
    decreases todo.len(),
{
    if todo.len() > 0 {
        let rest = todo.drop_first();
        assert(todos_fit(root, rest)) by {
            assert forall|i: int| 0 <= i < rest.len() implies todo_fits(
                root,
                #[trigger] rest[i],
            ) by {
                assert(rest[i] == todo[i + 1]);
            }
        }
        assert(todo_fits(root, todo[0]));
        match look(kind, todo[0]) {
            Look::Pass => {
                settled_fits(root, kind, found, rest);
            },
            Look::List { rel, modified_ms } => {
                settled_fits(
                    root,
                    kind,
                    found.push(
                        crate::walk::Found {
                            rel: crate::walk::id_of(rel),
                            modified_ms,
                            body: Seq::empty(),
                        },
                    ),
                    rest,
                );
            },
            Look::Enter { .. } | Look::Read { .. } => {
                if let Ok(e) = todo[0].entry {
                    below_grows(root, todo[0].dir, e.name);
                }
            },
            Look::Fail(_) => {},
        }
    }
}

proof fn walk_next_fits(root: Path, w: WalkView, reply: Reply)
    requires
        walk_fits(root, w),
        is_genuine(reply),
    ensures
        walk_next(w, reply) matches WalkStepView::More(next) ==> walk_fits(root, next),
{
    match (w.asked, reply) {
        (Asked::Folder { dir, rel }, Reply::Entries(Ok(list))) => {
            let all = todos(dir, rel, list) + w.todo;
            assert(todos_fit(root, all)) by {
                assert forall|i: int| 0 <= i < all.len() implies todo_fits(
                    root,
                    #[trigger] all[i],
                ) by {
                    if i < list.len() {
                        assert(all[i] == todos(dir, rel, list)[i]);
                        assert(list[i] matches Ok(e) ==> is_file_name(e.name));
                    } else {
                        assert(all[i] == w.todo[i - list.len()]);
                    }
                }
            }
            settled_fits(root, w.kind, w.found, all);
        },
        (Asked::Body { rel, modified_ms, .. }, Reply::Bytes(Ok(bytes))) => {
            settled_fits(
                root,
                w.kind,
                w.found.push(
                    crate::walk::Found {
                        rel: crate::walk::id_of(rel),
                        modified_ms,
                        body: crate::text::shown(bytes),
                    },
                ),
                w.todo,
            );
        },
        _ => {},
    }
}

/// A command that holds only paths of its folder asks for nothing outside of it.
proof fn contained_asks_inside(dir: Seq<char>, phase: PhaseView)
    requires
        is_contained(dir, phase),
    ensures
        phase_request(phase) matches Some(request) ==> is_inside(root_of(dir), request),
{
    match phase {
        Phase::DropMarker { folder } => {
            marker_is_a_file_name();
            below_grows(root_of(dir), folder, utf8(FOLDER_MARKER@));
        },
        Phase::SetAside { target, number } | Phase::DropAside { target, number } => {
            aside_is_below(root_of(dir), target, number);
        },
        _ => {},
    }
}

proof fn done_read_is_contained(dir: Seq<char>, phase: PhaseView, answer: Result<(), Fault>)
    requires
        is_contained(dir, phase),
    ensures
        is_contained(dir, done_read(dir, phase, answer)),
{
    match phase {
        Phase::RemoveNote { target } => {
            prune_after_is_contained(dir, target, None);
        },
        Phase::MakeFolder { then_do, .. } => {
            folder_ready_is_contained(dir, then_do);
        },
        Phase::Rename { from, to, .. } => {
            prune_after_is_contained(dir, from, Some(to));
        },
        Phase::Move { from, .. } => {
            prune_after_is_contained(dir, from, None);
        },
        _ => {},
    }
}

proof fn next_is_contained(dir: Seq<char>, phase: PhaseView, reply: Reply)
    requires
        is_contained(dir, phase),
        is_genuine(reply),
    ensures
        is_contained(dir, phase_next(dir, phase, reply)),
{
    let root = root_of(dir);
    match (phase, reply) {
        (Phase::Resolve { at, task }, _) => {
            if judge(at, reply) is Inside {
                resolved_is_contained(dir, task, at.target);
            }
        },
        (Phase::Exists { target, why }, Reply::Exists(_)) => {
            match why {
                ExistsUse::RenameFrom { from, .. } => {
                    with_room_is_contained(
                        dir,
                        target,
                        AfterFolder::Rename { from, to: target, same: false },
                    );
                },
                ExistsUse::MoveFrom { from, .. } => {
                    with_room_is_contained(dir, target, AfterFolder::Move { from, to: target });
                },
                _ => {},
            }
        },
        (Phase::SameTo { from, target, .. }, Reply::Canonical(_)) => {
            with_room_is_contained(
                dir,
                target,
                AfterFolder::Rename { from, to: target, same: true },
            );
        },
        (Phase::Prune { at, .. }, _) => {
            if let Some(next) = prune_next(at, reply) {
                if next.dir != at.dir {
                    assert(at.dir.len() > root.len());
                    below_shrinks(root, at.dir);
                }
            }
        },
        (Phase::Walk { at }, _) => {
            walk_next_fits(root, at, reply);
        },
        (_, Reply::Done(answer)) => {
            done_read_is_contained(dir, phase, answer);
        },
        _ => {},
    }
}

/// Where a command stands after these answers.
pub open spec fn reached(job: JobView, replies: Seq<Reply>) -> JobView
    decreases replies.len(),
{
    if replies.len() == 0 {
        job
    } else {
        job_next(reached(job, replies.drop_last()), replies.last())
    }
}

/// Whether all answers can come from an operating system.
pub open spec fn all_genuine(replies: Seq<Reply>) -> bool {
    forall|i: int| 0 <= i < replies.len() ==> is_genuine(#[trigger] replies[i])
}

proof fn reached_is_contained(job: JobView, replies: Seq<Reply>)
    requires
        is_contained(job.dir, job.phase),
        all_genuine(replies),
    ensures
        reached(job, replies).dir == job.dir,
        is_contained(job.dir, reached(job, replies).phase),
    decreases replies.len(),
{
    if replies.len() > 0 {
        let before = replies.drop_last();
        assert(all_genuine(before)) by {
            assert forall|i: int| 0 <= i < before.len() implies is_genuine(
                #[trigger] before[i],
            ) by {
                assert(before[i] == replies[i]);
            }
        }
        assert(is_genuine(replies[replies.len() - 1]));
        reached_is_contained(job, before);
        next_is_contained(job.dir, reached(job, before).phase, replies.last());
    }
}

/// Whether a task is one that a command begins with, and not the second half of a rename or a move.
pub open spec fn is_whole(task: Task<Path, Seq<u8>, Seq<char>>) -> bool {
    !(task is RenameTo) && !(task is MoveTo)
}

/// Whatever the operating system answers, a command with a caller-supplied path reads and changes
/// nothing outside the picked folder. This speaks of the text of the paths that it uses; where
/// links on them lead is what the confinement judges before any of them is used.
pub proof fn a_command_stays_in_its_folder(
    dir: Seq<char>,
    name: Seq<char>,
    task: Task<Path, Seq<u8>, Seq<char>>,
    replies: Seq<Reply>,
)
    requires
        is_whole(task),
        all_genuine(replies),
    ensures
        phase_request(reached(job_on(dir, name, task), replies).phase) matches Some(request)
            ==> is_inside(root_of(dir), request),
{
    let job = job_on(dir, name, task);
    begun_is_contained(dir, name, task);
    reached_is_contained(job, replies);
    contained_asks_inside(dir, reached(job, replies).phase);
}

/// A file that is to be saved at a path that names none is refused before anything is done.
pub proof fn what_is_saved_has_a_name(
    dir: Seq<char>,
    name: Seq<char>,
    bytes: Seq<u8>,
    stamp: bool,
)
    requires
        !names_something(name),
    ensures
        job_on(dir, name, Task::Save { bytes, stamp }).phase == failed(refusal(name)),
{
}

/// Once both paths are known to stay inside, a rename or a move to a place that is taken ends with
/// saying so, and does nothing; only a rename to another name of the same file goes ahead. What is
/// there may be the picked folder itself.
pub proof fn a_taken_place_is_in_the_way(
    dir: Seq<char>,
    from: Path,
    target: Path,
    to: Seq<char>,
    old: Result<Path, Fault>,
    new: Result<Path, Fault>,
)
    ensures
        reached(
            JobView { dir, phase: resolved(dir, Task::MoveTo { from, to }, target) },
            seq![Reply::Exists(true)],
        ).phase == failed(already_exists(to)),
        !(old is Ok && new is Ok && old->Ok_0 == new->Ok_0) ==> reached(
            JobView { dir, phase: resolved(dir, Task::RenameTo { from, to }, target) },
            seq![Reply::Exists(true), Reply::Canonical(old), Reply::Canonical(new)],
        ).phase == failed(already_exists(to)),
{
    let there = Reply::Exists(true);
    let first = Reply::Canonical(old);
    let second = Reply::Canonical(new);
    let to_move = JobView { dir, phase: resolved(dir, Task::MoveTo { from, to }, target) };
    let to_rename = JobView { dir, phase: resolved(dir, Task::RenameTo { from, to }, target) };
    assert(seq![there].drop_last() =~= Seq::empty());
    assert(reached(to_move, Seq::empty()) == to_move);
    assert(reached(to_rename, Seq::empty()) == to_rename);
    assert(reached(to_rename, seq![there]) == job_next(to_rename, there));
    assert(seq![there, first].drop_last() =~= seq![there]);
    assert(reached(to_rename, seq![there, first]) == job_next(
        reached(to_rename, seq![there]),
        first,
    ));
    assert(seq![there, first, second].drop_last() =~= seq![there, first]);
}

/// Once it is known to stay inside, the picked folder can be renamed to itself: if its operations
/// succeed that gives back its last change, and nothing around it is asked for.
pub proof fn the_picked_folder_can_be_renamed_to_itself(
    dir: Seq<char>,
    to: Seq<char>,
    place: Path,
    meta: FileMeta,
)
    ensures
        ({
            let root = root_of(dir);
            reached(
                JobView { dir, phase: resolved(dir, Task::RenameTo { from: root, to }, root) },
                seq![
                    Reply::Exists(true),
                    Reply::Canonical(Ok(place)),
                    Reply::Canonical(Ok(place)),
                    Reply::Done(Ok(())),
                    Reply::Meta(Ok(meta)),
                ],
            ).phase == done(Outcome::Stamp(modified_of(meta)))
        }),
{
    let root = root_of(dir);
    let there = Reply::Exists(true);
    let found = Reply::Canonical(Ok(place));
    let ok = Reply::Done(Ok(()));
    let stat = Reply::Meta(Ok(meta));
    let j0 = JobView { dir, phase: resolved(dir, Task::RenameTo { from: root, to }, root) };
    let j1 = job_next(j0, there);
    let j2 = job_next(j1, found);
    let j3 = job_next(j2, found);
    let j4 = job_next(j3, ok);
    assert(seq![there].drop_last() =~= Seq::empty());
    assert(reached(j0, Seq::empty()) == j0);
    assert(reached(j0, seq![there]) == j1);
    assert(seq![there, found].drop_last() =~= seq![there]);
    assert(reached(j0, seq![there, found]) == j2);
    assert(seq![there, found, found].drop_last() =~= seq![there, found]);
    assert(reached(j0, seq![there, found, found]) == j3);
    assert(seq![there, found, found, ok].drop_last() =~= seq![there, found, found]);
    assert(reached(j0, seq![there, found, found, ok]) == j4);
    assert(seq![there, found, found, ok, stat].drop_last() =~= seq![there, found, found, ok]);
    if let Some(folder) = parent_of(root) {
        assert(!prune_reaches(root, folder));
    }
}

/// Whatever the operating system answers, a walk and the listing of attachments read nothing
/// outside the picked folder.
pub proof fn a_listing_stays_in_its_folder(dir: Seq<char>, kind: WalkKind, replies: Seq<Reply>)
    requires
        all_genuine(replies),
    ensures
        phase_request(reached(walk_job(dir, kind), replies).phase) matches Some(request)
            ==> is_inside(root_of(dir), request),
        phase_request(reached(attachments_job(dir), replies).phase) matches Some(request)
            ==> is_inside(root_of(dir), request),
{
    let root = root_of(dir);
    assert(root.subrange(0, root.len() as int) =~= root);
    let walk = walk_job(dir, kind);
    reached_is_contained(walk, replies);
    contained_asks_inside(dir, reached(walk, replies).phase);
    marker_is_a_file_name();
    below_grows(root, root, utf8(ATTACHMENTS_DIR@));
    let list = attachments_job(dir);
    reached_is_contained(list, replies);
    contained_asks_inside(dir, reached(list, replies).phase);
}

/// The listing of attachments.
pub open spec fn attachments_job(dir: Seq<char>) -> JobView {
    JobView {
        dir,
        phase: Phase::ReadFlat { folder: attachments_of(dir), what: Flat::Attachments },
    }
}

/// Until the path is known to stay inside, a command does nothing but look up where it really
/// leads; and a path that is refused ends the command.
pub proof fn nothing_happens_to_a_path_that_leads_out(
    dir: Seq<char>,
    name: Seq<char>,
    task: Task<Path, Seq<u8>, Seq<char>>,
    phase: PhaseView,
    reply: Reply,
)
    ensures
        begun(dir, name, task) is Resolve || phase_request(begun(dir, name, task)) is None,
        phase matches Phase::Resolve { at, .. } ==> phase_request(phase) == Some(
            confine_request(at),
        ) && (confine_request(at) is Canonicalize || confine_request(at) is ReadLink),
        (phase matches Phase::Resolve { at, .. } && judge(at, reply) is Refused) ==> phase_request(
            phase_next(dir, phase, reply),
        ) is None,
        (phase matches Phase::Resolve { at, .. } && judge(at, reply) is More) ==> phase_next(
            dir,
            phase,
            reply,
        ) is Resolve,
{
}

/// Whether after the first `i` of these answers the path `target` was judged to stay inside.
pub open spec fn is_let_through(job: JobView, replies: Seq<Reply>, target: Path, i: int) -> bool {
    &&& 0 <= i < replies.len()
    &&& reached(job, replies.take(i)).phase matches Phase::Resolve { at, .. } && at.target == target
        && judge(at, replies[i]) is Inside
}

/// Whether a command with a caller-supplied path is still finding out where the path leads, or has
/// ended.
spec fn is_at_the_door(
    phase: PhaseView,
    task: Task<Path, Seq<u8>, Seq<char>>,
    target: Path,
) -> bool {
    phase is Finished || (phase matches Phase::Resolve { at, task: t } && at.target == target && t
        == task)
}

proof fn reached_was_let_through(
    dir: Seq<char>,
    name: Seq<char>,
    task: Task<Path, Seq<u8>, Seq<char>>,
    replies: Seq<Reply>,
)
    ensures
        ({
            let job = job_on(dir, name, task);
            let target = within(root_of(dir), components(utf8(name)));
            !is_at_the_door(reached(job, replies).phase, task, target) ==> exists|i: int|
                is_let_through(job, replies, target, i)
        }),
    decreases replies.len(),
{
    let job = job_on(dir, name, task);
    let target = within(root_of(dir), components(utf8(name)));
    if replies.len() > 0 {
        let before = replies.drop_last();
        let n = before.len() as int;
        reached_was_let_through(dir, name, task, before);
        assert(replies.take(n) =~= before);
        if !is_at_the_door(reached(job, replies).phase, task, target) {
            if is_at_the_door(reached(job, before).phase, task, target) {
                assert(is_let_through(job, replies, target, n));
            } else {
                let i = choose|i: int| is_let_through(job, before, target, i);
                assert(replies.take(i) =~= before.take(i));
                assert(is_let_through(job, replies, target, i));
            }
        }
    }
}

/// A command with a caller-supplied path does nothing but look up where the path really leads
/// until that path was judged to stay in the picked folder. So to a path that leads out of it
/// nothing is done.
pub proof fn a_path_is_judged_before_it_is_used(
    dir: Seq<char>,
    name: Seq<char>,
    task: Task<Path, Seq<u8>, Seq<char>>,
    replies: Seq<Reply>,
)
    requires
        phase_request(reached(job_on(dir, name, task), replies).phase) matches Some(request)
            && !(request is Canonicalize) && !(request is ReadLink),
    ensures
        exists|i: int|
            is_let_through(
                job_on(dir, name, task),
                replies,
                within(root_of(dir), components(utf8(name))),
                i,
            ),
{
    reached_was_let_through(dir, name, task, replies);
}

/// A note that is read for editing encodes to exactly the bytes of its file, so saving it unchanged
/// changes nothing.
pub proof fn a_note_that_is_read_encodes_to_its_file(
    name: Seq<char>,
    modified_ms: u128,
    bytes: Seq<u8>,
)
    ensures
        match note_read(name, modified_ms, Ok(bytes)) {
            Phase::Finished { end: Ok(Outcome::Note(Some(note))) } => utf8(note.content) == bytes,
            Phase::Finished { end } => end is Err,
            _ => false,
        },
{
    if vstd::utf8::valid_utf8(bytes) {
        vstd::utf8::decode_utf8_encode_utf8(bytes);
    }
}

/// The marker of a folder is dropped, and the folder then removed, only right after the folder was
/// found to hold nothing else.
pub proof fn a_folder_is_removed_only_if_it_holds_nothing(
    dir: Seq<char>,
    phase: PhaseView,
    reply: Reply,
    i: int,
)
    requires
        phase_next(dir, phase, reply) is DropMarker,
        !(phase is DropMarker),
    ensures
        phase is ReadFlat,
        reply matches Reply::Entries(Ok(list)) && (0 <= i < list.len() ==> (
        list[i] matches Ok(e) && e.name == utf8(FOLDER_MARKER@))),
{
    if let (Phase::ReadFlat { what: Flat::Removal { path }, .. }, Reply::Entries(Ok(list))) = (
        phase,
        reply,
    ) {
        only_a_marked_folder_is_removable(path, list);
    }
}

/// To remove what is missing is no error, for an attachment, a folder and a folder with all that is
/// in it; and a missing folder has no notes and no attachments.
pub proof fn what_is_missing_needs_no_removal(
    dir: Seq<char>,
    target: Path,
    number: u32,
    sub: Seq<char>,
    path: Seq<char>,
    text: Seq<char>,
)
    ensures
        ({
            let fault = IoFault { not_found: true, text };
            let gone = Reply::Done(Err(fault));
            let nothing = Reply::Entries(Err(fault));
            &&& phase_next(dir, Phase::RemoveAttachment { target }, gone) == done(Outcome::Unit)
            &&& phase_next(dir, Phase::LookTree { target }, Reply::Link(Err(fault))) == done(
                Outcome::Unit,
            )
            &&& phase_next(
                dir,
                Phase::ReadFlat { folder: target, what: Flat::Tree },
                nothing,
            ) == done(Outcome::Unit)
            &&& phase_next(dir, Phase::SetAside { target, number }, gone) == done(Outcome::Unit)
            &&& phase_next(dir, Phase::DropTree { target }, gone) == done(Outcome::Unit)
            &&& phase_next(
                dir,
                Phase::ReadFlat { folder: target, what: Flat::Removal { path } },
                nothing,
            ) == done(Outcome::Unit)
            &&& phase_next(
                dir,
                Phase::ReadFlat { folder: target, what: Flat::Notes { sub } },
                nothing,
            ) == done(Outcome::Heads(Seq::empty()))
            &&& phase_next(
                dir,
                Phase::ReadFlat { folder: target, what: Flat::Attachments },
                nothing,
            ) == done(Outcome::Attachments(Seq::empty()))
        }),
{
}

/// Whether every answer says that something is there.
pub open spec fn are_taken(replies: Seq<Reply>) -> bool {
    forall|i: int| 0 <= i < replies.len() ==> (#[trigger] replies[i] matches Reply::Link(Ok(_)))
}

proof fn reached_then(job: JobView, replies: Seq<Reply>, reply: Reply)
    ensures
        reached(job, replies.push(reply)) == job_next(reached(job, replies), reply),
{
    assert(replies.push(reply).drop_last() =~= replies);
}

proof fn taken_places_are_passed(dir: Seq<char>, target: Path, list: Listing, taken: Seq<Reply>)
    requires
        are_taken(taken),
        taken.len() <= u32::MAX,
        target.len() > root_of(dir).len(),
    ensures
        reached(
            JobView { dir, phase: resolved(dir, Task::RemoveTree, target) },
            seq![Reply::Link(Ok(None)), Reply::Entries(Ok(list))] + taken,
        ) == (JobView { dir, phase: Phase::PickAside { target, number: taken.len() as u32 } }),
    decreases taken.len(),
{
    let job = JobView { dir, phase: resolved(dir, Task::RemoveTree, target) };
    let look = Reply::Link(Ok(None));
    let content = Reply::Entries(Ok(list));
    let start = seq![look, content];
    if taken.len() == 0 {
        reached_then(job, Seq::empty(), look);
        reached_then(job, seq![look], content);
        assert(Seq::empty().push(look) =~= seq![look]);
        assert(seq![look].push(content) =~= start);
        assert(start + taken =~= start);
    } else {
        let earlier = taken.drop_last();
        assert(are_taken(earlier)) by {
            assert forall|i: int| 0 <= i < earlier.len() implies (
            #[trigger] earlier[i] matches Reply::Link(Ok(_))) by {
                assert(earlier[i] == taken[i]);
            }
        }
        taken_places_are_passed(dir, target, list, earlier);
        assert(taken[taken.len() - 1] matches Reply::Link(Ok(_)));
        reached_then(job, start + earlier, taken.last());
        assert((start + earlier).push(taken.last()) =~= start + taken);
    }
}

/// Once its path is known to stay inside, a folder is removed with all that is in it as soon as a
/// place beside it is found where nothing stands and the rename to it succeeds: however many places
/// are taken, and whatever comes of the removal of what was renamed.
pub proof fn removing_a_folder_succeeds(
    dir: Seq<char>,
    target: Path,
    list: Listing,
    taken: Seq<Reply>,
    text: Seq<char>,
    last: Result<(), Fault>,
)
    requires
        are_taken(taken),
        taken.len() <= u32::MAX,
        target.len() > root_of(dir).len(),
    ensures
        ({
            let free = Reply::Link(Err(IoFault { not_found: true, text }));
            reached(
                JobView { dir, phase: resolved(dir, Task::RemoveTree, target) },
                (seq![Reply::Link(Ok(None)), Reply::Entries(Ok(list))] + taken).push(free).push(
                    Reply::Done(Ok(())),
                ).push(Reply::Done(last)),
            ).phase == done(Outcome::Unit)
        }),
{
    let job = JobView { dir, phase: resolved(dir, Task::RemoveTree, target) };
    let free = Reply::Link(Err(IoFault { not_found: true, text }));
    let ok = Reply::Done(Ok(()));
    let start = seq![Reply::Link(Ok(None)), Reply::Entries(Ok(list))] + taken;
    taken_places_are_passed(dir, target, list, taken);
    reached_then(job, start, free);
    reached_then(job, start.push(free), ok);
    reached_then(job, start.push(free).push(ok), Reply::Done(last));
}

/// Where a command has come to after at most `n` answers of a disk that stands still.
pub open spec fn answered(disk: StillDisk, job: JobView, n: nat) -> JobView
    decreases n,
{
    match phase_request(job.phase) {
        Some(request) if n > 0 => answered(disk, job_next(job, disk(request)), (n - 1) as nat),
        _ => job,
    }
}

/// Whether a disk that stands still answers by these real paths and links.
pub open spec fn shows_paths(disk: StillDisk, canon: RealPaths, links: Links) -> bool {
    &&& forall|p: Path| #[trigger]
        disk(Request::Canonicalize(p)) == Reply::Canonical(canon(p))
    &&& forall|p: Path| #[trigger] disk(Request::ReadLink(p)) == Reply::Link(links(p))
}

/// Where a command stands whose path was judged so.
pub open spec fn judged_phase(
    dir: Seq<char>,
    c: Judging,
    task: Task<Path, Seq<u8>, Seq<char>>,
    end: Judged,
) -> PhaseView {
    match end {
        ConfineStep::More(next) => Phase::Resolve { at: next, task },
        ConfineStep::Inside => resolved(dir, task, c.target),
        ConfineStep::Refused(message) => failed(message),
    }
}

proof fn a_command_follows_its_judgement(
    disk: StillDisk,
    canon: RealPaths,
    links: Links,
    dir: Seq<char>,
    c: Judging,
    task: Task<Path, Seq<u8>, Seq<char>>,
) -> (n: nat)
    requires
        shows_paths(disk, canon, links),
    ensures
        answered(disk, JobView { dir, phase: Phase::Resolve { at: c, task } }, n) == (JobView {
            dir,
            phase: judged_phase(dir, c, task, judged_by(c, canon, links)),
        }),
    decreases
            hops_left(c),
            probed(c).len(),
            if c.stage is Look {
                0nat
            } else {
                1nat
            },
{
    let job = JobView { dir, phase: Phase::Resolve { at: c, task } };
    let reply = still_answer(c, canon, links);
    assert(disk(confine_request(c)) == reply);
    match judge(c, reply) {
        ConfineStep::More(next) => {
            let n = a_command_follows_its_judgement(disk, canon, links, dir, next, task);
            assert(next.target == c.target);
            assert(answered(disk, job, n + 1) == answered(disk, job_next(job, reply), n));
            n + 1
        },
        _ => {
            assert(answered(disk, job, 1) == answered(disk, job_next(job, reply), 0));
            1
        },
    }
}

/// On a disk that stands still, a command with a path that the judgement refuses ends with the
/// refusal, and one with a path that it lets through goes on with the path.
pub proof fn a_command_ends_where_its_path_is_refused(
    disk: StillDisk,
    canon: RealPaths,
    links: Links,
    dir: Seq<char>,
    name: Seq<char>,
    task: Task<Path, Seq<u8>, Seq<char>>,
)
    requires
        shows_paths(disk, canon, links),
        !escapes(components(utf8(name))),
        !is_nameless(name, task),
    ensures
        exists|n: nat|
            (#[trigger] answered(disk, job_on(dir, name, task), n)).phase == judged_phase(
                dir,
                confining(dir, name),
                task,
                judged_by(confining(dir, name), canon, links),
            ),
{
    let n = a_command_follows_its_judgement(
        disk,
        canon,
        links,
        dir,
        confining(dir, name),
        task,
    );
    assert(answered(disk, job_on(dir, name, task), n).phase == judged_phase(
        dir,
        confining(dir, name),
        task,
        judged_by(confining(dir, name), canon, links),
    ));
}

} // verus!
