//! What commands do to the files of a disk: said of whole runs, over a disk that nobody else
//! changes meanwhile.

use vstd::prelude::*;

use crate::commands::{job_on, walk_job};
use crate::confine::ConfineStage;
use crate::fsio::{answers, modified_of, FileMeta, FsRequest, Reply, Request};
use crate::job::{
    done, job_next, marker_in, phase_next, phase_request, resolved, root_of, AfterFolder, ExistsUse,
    Flat, JobView, Outcome, OutcomeView, Phase, PhaseView, StatUse, Task,
};
use crate::job_laws::reached;
use crate::listing::{FullView, NoteFull};
use crate::path::{components, parent_of, Path};
use crate::relocate::MovingView;
use crate::resolve::{
    a_named_path_is_longer, aside_is_beside_the_folder, aside_of, escapes, names_something,
    resolving_stays_below, staging_of, utf8, within,
};
use crate::save::{staging_is_beside_the_target, SavingView};
use crate::walk::WalkKind;

verus! {

/// A file: its content and the time of its last change.
pub struct Stored {
    pub bytes: Seq<u8>,
    pub modified_ms: u128,
}

/// The files of a disk. It holds no links; of disks that do `link_laws` speaks.
pub type Disk = Map<Path, Stored>;

/// Where paths really lead.
pub type Real = spec_fn(Path) -> Path;

/// Whether the file `p` is the same on both disks, or missing on both.
pub open spec fn is_same_at(a: Disk, b: Disk, p: Path) -> bool {
    a.contains_key(p) == b.contains_key(p) && (a.contains_key(p) ==> a[p] == b[p])
}

/// Whether all files but `p` are the same.
pub open spec fn is_same_but(a: Disk, b: Disk, p: Path) -> bool {
    forall|q: Path| q != p ==> #[trigger] is_same_at(a, b, q)
}

/// Whether all files outside of the folder `p` are the same, and those in it the same or gone.
pub open spec fn is_same_outside(a: Disk, b: Disk, p: Path) -> bool {
    forall|q: Path| #[trigger]
        is_same_at(a, b, q) || (p.is_prefix_of(q) && !b.contains_key(q))
}

/// The disk after `from` was renamed to `to`: a file, or all files in a folder.
pub open spec fn renamed(disk: Disk, from: Path, to: Path) -> Disk {
    if disk.contains_key(from) {
        disk.remove(from).insert(to, disk[from])
    } else {
        Map::new(
            |p: Path|
                if to.is_prefix_of(p) {
                    disk.contains_key(from + p.skip(to.len() as int))
                } else {
                    disk.contains_key(p) && !from.is_prefix_of(p)
                },
            |p: Path|
                if to.is_prefix_of(p) {
                    disk[from + p.skip(to.len() as int)]
                } else {
                    disk[p]
                },
        )
    }
}

/// The disk without what is in the folder `p`, and without the file `p`.
pub open spec fn without_tree(disk: Disk, p: Path) -> Disk {
    Map::new(|q: Path| disk.contains_key(q) && !p.is_prefix_of(q), |q: Path| disk[q])
}

/// Whether there is nothing at `p`: neither a file nor one below it.
pub open spec fn is_vacant(disk: Disk, p: Path) -> bool {
    forall|q: Path| p.is_prefix_of(q) ==> !#[trigger] disk.contains_key(q)
}

/// Whether a disk can answer the operation so, and is `after` then what it was `before`. What an
/// operation does that fails is known only as far as which files it may have changed. The disk
/// holds no links, and every entry of it can be examined: so nothing is there where an entry is
/// said not to exist.
pub open spec fn performs(
    real_path: Real,
    before: Disk,
    request: Request,
    reply: Reply,
    after: Disk,
) -> bool {
    answers(request, reply) && match (request, reply) {
        (FsRequest::Canonicalize(p), Reply::Canonical(Ok(found))) => after == before && found
            == real_path(p),
        (FsRequest::ReadLink(_), Reply::Link(Ok(to))) => after == before && to is None,
        (FsRequest::ReadLink(p), Reply::Link(Err(fault))) => after == before && (fault.not_found
            ==> is_vacant(before, p)),
        (FsRequest::Metadata(p), Reply::Meta(Ok(meta))) => after == before && (before.contains_key(
            p,
        ) ==> modified_of(meta) == before[p].modified_ms),
        (FsRequest::Metadata(p), Reply::Meta(Err(fault))) => after == before && (fault.not_found
            ==> is_vacant(before, p)),
        (FsRequest::Exists(p), Reply::Exists(there)) => after == before && (!there ==> is_vacant(
            before,
            p,
        )),
        (FsRequest::ReadDir(p), Reply::Entries(Ok(_))) => after == before && !before.contains_key(
            p,
        ),
        (FsRequest::ReadDir(p), Reply::Entries(Err(fault))) => after == before && (fault.not_found
            ==> is_vacant(before, p)),
        (FsRequest::ReadFile(p), Reply::Bytes(Ok(bytes))) => after == before && holds(
            before,
            p,
            bytes,
        ),
        (FsRequest::ReadFile(p), Reply::Bytes(Err(fault))) => after == before && (fault.not_found
            ==> is_vacant(before, p)),
        (FsRequest::WriteFile(p, bytes), Reply::Done(Ok(_))) => is_same_but(before, after, p)
            && holds(after, p, bytes),
        (FsRequest::WriteFile(p, _), Reply::Done(Err(_))) => is_same_but(before, after, p),
        (FsRequest::Rename(from, to), Reply::Done(Ok(_))) => after == renamed(before, from, to),
        (FsRequest::Rename(from, to), Reply::Done(Err(fault))) => after == before && (
        fault.not_found && parent_of(from) == parent_of(to) ==> is_vacant(before, from)),
        (FsRequest::Copy(from, to), Reply::Done(Ok(_))) => before.contains_key(from)
            && is_same_but(before, after, to) && holds(after, to, before[from].bytes),
        (FsRequest::Copy(_, to), Reply::Done(Err(_))) => is_same_but(before, after, to),
        (FsRequest::RemoveFile(p), Reply::Done(Ok(_))) => after == before.remove(p),
        (FsRequest::RemoveFile(p), Reply::Done(Err(fault))) => after == before && (fault.not_found
            ==> is_vacant(before, p)),
        (FsRequest::RemoveDirAll(p), Reply::Done(Ok(_))) => after == without_tree(before, p),
        (FsRequest::RemoveDirAll(p), Reply::Done(Err(fault))) => is_same_outside(before, after, p)
            && (fault.not_found ==> is_vacant(after, p)),
        _ => after == before,
    }
}

/// Whether the file `p` has this content.
pub open spec fn holds(disk: Disk, p: Path, bytes: Seq<u8>) -> bool {
    disk.contains_key(p) && disk[p].bytes == bytes
}

/// Whether a command was answered with `replies`, the disk being `disks[i]` before the answer `i`
/// and `disks[i + 1]` after it.
pub open spec fn is_history(
    real_path: Real,
    job: JobView,
    replies: Seq<Reply>,
    disks: Seq<Disk>,
) -> bool
    decreases replies.len(),
{
    disks.len() == replies.len() + 1 && (replies.len() > 0 ==> {
        &&& is_history(real_path, job, replies.drop_last(), disks.drop_last())
        &&& phase_request(reached(job, replies.drop_last()).phase) matches Some(request)
            && performs(
            real_path,
            disks[disks.len() - 2],
            request,
            replies.last(),
            disks.last(),
        )
    })
}

/// Where the caller-supplied path `name` leads.
pub open spec fn target_of(dir: Seq<char>, name: Seq<char>) -> Path {
    within(root_of(dir), components(utf8(name)))
}

/// Whether `p` is `a` or `b`, or lies below one of them.
pub open spec fn is_in_either(a: Path, b: Path, p: Path) -> bool {
    a.is_prefix_of(p) || b.is_prefix_of(p)
}

/// Whether `p` lies at one of the places beside the folder `target` that it can be renamed to before
/// it is removed, or below it.
pub open spec fn is_aside(target: Path, p: Path) -> bool {
    exists|number: u32| (#[trigger] aside_of(target, number)).is_prefix_of(p)
}

/// Whether a task on `target` may change the file `p`.
pub open spec fn task_touches(
    dir: Seq<char>,
    task: Task<Path, Seq<u8>, Seq<char>>,
    target: Path,
    p: Path,
) -> bool {
    match task {
        Task::Save { .. } => is_in_either(target, staging_of(target), p),
        Task::RenameFrom { to } => is_in_either(target, target_of(dir, to), p),
        Task::MoveFrom { to } => is_in_either(target, target_of(dir, to), p),
        Task::RenameTo { from, .. } => is_in_either(from, target, p),
        Task::MoveTo { from, .. } => is_in_either(from, target, p),
        Task::RemoveNote => p == target,
        Task::RemoveAttachment => p == target,
        Task::CreateFolder => is_in_either(
            marker_in(target),
            staging_of(marker_in(target)),
            p,
        ),
        Task::RemoveFolder { .. } => p == marker_in(target),
        Task::RemoveTree => target.is_prefix_of(p) || is_aside(target, p),
        _ => false,
    }
}

/// Whether what is done once a folder is there may change the file `p`.
pub open spec fn after_touches(then_do: AfterFolder<Path, Seq<u8>>, p: Path) -> bool {
    match then_do {
        AfterFolder::Save { target, .. } => is_in_either(target, staging_of(target), p),
        AfterFolder::Rename { from, to, .. } => is_in_either(from, to, p),
        AfterFolder::Move { from, to } => is_in_either(from, to, p),
    }
}

/// Whether a command may still change the file `p`.
pub open spec fn touches(dir: Seq<char>, phase: PhaseView, p: Path) -> bool {
    match phase {
        Phase::Resolve { at, task } => task_touches(dir, task, at.target, p),
        Phase::ReadFlat { folder, what: Flat::Removal { .. } } => p == marker_in(folder),
        Phase::DropMarker { folder } => p == marker_in(folder),
        Phase::LookTree { target } => target.is_prefix_of(p) || is_aside(target, p),
        Phase::ReadFlat { folder, what: Flat::Tree } => folder.is_prefix_of(p) || is_aside(
            folder,
            p,
        ),
        Phase::DropTree { target } => target.is_prefix_of(p),
        Phase::PickAside { target, .. } => target.is_prefix_of(p) || is_aside(target, p),
        Phase::SetAside { target, number } => is_in_either(target, aside_of(target, number), p),
        Phase::DropAside { target, number } => aside_of(target, number).is_prefix_of(p),
        Phase::RemoveNote { target } => p == target,
        Phase::RemoveAttachment { target } => p == target,
        Phase::MakeFolder { then_do, .. } => after_touches(then_do, p),
        Phase::Save { at, .. } => match at {
            SavingView::Stage { target, staging, .. } => is_in_either(target, staging, p),
            SavingView::Publish { target, staging } => is_in_either(target, staging, p),
            SavingView::Discard { staging, .. } => staging.is_prefix_of(p),
        },
        Phase::Exists { target, why } => match why {
            ExistsUse::RenameFrom { from, .. } => is_in_either(from, target, p),
            ExistsUse::MoveFrom { from, .. } => is_in_either(from, target, p),
            _ => false,
        },
        Phase::SameFrom { from, target, .. } => is_in_either(from, target, p),
        Phase::SameTo { from, target, .. } => is_in_either(from, target, p),
        Phase::Rename { at, .. } => match at {
            MovingView::Rename { from, to, .. } => is_in_either(from, to, p),
            MovingView::Copy { from, to, .. } => is_in_either(from, to, p),
            MovingView::Drop { from } => from.is_prefix_of(p),
        },
        Phase::Move { from, to } => is_in_either(from, to, p),
        _ => false,
    }
}

/// What a command may change only ever gets less.
proof fn touches_no_more(dir: Seq<char>, phase: PhaseView, reply: Reply, p: Path)
    ensures
        touches(dir, phase_next(dir, phase, reply), p) ==> touches(dir, phase, p),
{
}

proof fn renamed_elsewhere(disk: Disk, from: Path, to: Path, p: Path)
    requires
        !is_in_either(from, to, p),
    ensures
        is_same_at(disk, renamed(disk, from, to), p),
{
    assert(from.subrange(0, from.len() as int) =~= from);
    assert(to.subrange(0, to.len() as int) =~= to);
}

/// One operation of a command leaves alone what the command does not touch.
proof fn an_operation_changes_only_its_files(
    real_path: Real,
    dir: Seq<char>,
    phase: PhaseView,
    before: Disk,
    reply: Reply,
    after: Disk,
    p: Path,
)
    requires
        phase_request(phase) matches Some(request) && performs(
            real_path,
            before,
            request,
            reply,
            after,
        ),
        !touches(dir, phase, p),
    ensures
        is_same_at(before, after, p),
{
    match phase_request(phase) {
        Some(FsRequest::Rename(from, to)) => {
            assert(from.is_prefix_of(from)) by {
                assert(from.subrange(0, from.len() as int) =~= from);
            }
            assert(to.is_prefix_of(to)) by {
                assert(to.subrange(0, to.len() as int) =~= to);
            }
            if !is_in_either(from, to, p) {
                renamed_elsewhere(before, from, to, p);
            }
        },
        Some(FsRequest::Copy(from, to)) => {
            assert(to.subrange(0, to.len() as int) =~= to);
        },
        Some(FsRequest::RemoveFile(q)) => {
            assert(q.subrange(0, q.len() as int) =~= q);
        },
        Some(FsRequest::WriteFile(q, _)) => {
            assert(q.subrange(0, q.len() as int) =~= q);
        },
        _ => {},
    }
}

proof fn reached_touches_no_more(job: JobView, replies: Seq<Reply>, p: Path)
    ensures
        reached(job, replies).dir == job.dir,
        touches(job.dir, reached(job, replies).phase, p) ==> touches(job.dir, job.phase, p),
    decreases replies.len(),
{
    if replies.len() > 0 {
        let before = replies.drop_last();
        reached_touches_no_more(job, before, p);
        touches_no_more(job.dir, reached(job, before).phase, replies.last(), p);
    }
}

/// A command changes only the files that it is about: at any time, and however it ends, every
/// other file is as it was.
pub proof fn a_command_changes_only_its_files(
    real_path: Real,
    job: JobView,
    replies: Seq<Reply>,
    disks: Seq<Disk>,
    p: Path,
)
    requires
        is_history(real_path, job, replies, disks),
        !touches(job.dir, job.phase, p),
    ensures
        is_same_at(disks[0], disks.last(), p),
    decreases replies.len(),
{
    if replies.len() > 0 {
        let before = replies.drop_last();
        a_command_changes_only_its_files(real_path, job, before, disks.drop_last(), p);
        reached_touches_no_more(job, before, p);
        an_operation_changes_only_its_files(
            real_path,
            job.dir,
            reached(job, before).phase,
            disks[disks.len() - 2],
            replies.last(),
            disks.last(),
            p,
        );
        assert(disks.drop_last().last() == disks[disks.len() - 2]);
    }
}

/// Whether a task only reads.
pub open spec fn only_reads(task: Task<Path, Seq<u8>, Seq<char>>) -> bool {
    match task {
        Task::ListNotes { .. } | Task::ReadNote { .. } | Task::ReadAttachment | Task::Exists
        | Task::Stat | Task::Reveal { .. } => true,
        _ => false,
    }
}

/// Listing, reading, looking and revealing leave every file as it is.
pub proof fn reading_changes_nothing(
    real_path: Real,
    dir: Seq<char>,
    name: Seq<char>,
    task: Task<Path, Seq<u8>, Seq<char>>,
    kind: WalkKind,
    replies: Seq<Reply>,
    disks: Seq<Disk>,
)
    requires
        only_reads(task),
        is_history(real_path, job_on(dir, name, task), replies, disks) || is_history(
            real_path,
            walk_job(dir, kind),
            replies,
            disks,
        ),
    ensures
        disks.last() == disks[0],
{
    assert forall|p: Path| is_same_at(disks[0], disks.last(), p) by {
        if is_history(real_path, job_on(dir, name, task), replies, disks) {
            a_command_changes_only_its_files(
                real_path,
                job_on(dir, name, task),
                replies,
                disks,
                p,
            );
        } else {
            a_command_changes_only_its_files(real_path, walk_job(dir, kind), replies, disks, p);
        }
    }
    assert forall|p: Path| #[trigger]
        disks.last().dom().contains(p) == disks[0].dom().contains(p) && (disks[0].dom().contains(p)
            ==> disks.last()[p] == disks[0][p]) by {
        assert(is_same_at(disks[0], disks.last(), p));
    }
    assert(disks.last() =~= disks[0]);
}

/// Removing an empty folder takes no file but its marker; removing a note or an attachment takes no
/// other file. Removing a folder with all that is in it takes and changes no file outside of it; and
/// it makes none but at the places beside it that it can be renamed to.
pub proof fn a_removal_takes_nothing_else(
    real_path: Real,
    dir: Seq<char>,
    name: Seq<char>,
    replies: Seq<Reply>,
    disks: Seq<Disk>,
    p: Path,
)
    ensures
        ({
            let target = target_of(dir, name);
            let same = is_same_at(disks[0], disks.last(), p);
            &&& is_history(
                real_path,
                job_on(dir, name, Task::RemoveFolder { path: name }),
                replies,
                disks,
            ) && p != marker_in(target) ==> same
            &&& is_history(real_path, job_on(dir, name, Task::RemoveNote), replies, disks) && p
                != target ==> same
            &&& is_history(real_path, job_on(dir, name, Task::RemoveAttachment), replies, disks)
                && p != target ==> same
            &&& is_history(real_path, job_on(dir, name, Task::RemoveTree), replies, disks)
                && !target.is_prefix_of(p) && (disks[0].contains_key(p) || !is_aside(target, p))
                ==> same
        }),
{
    let target = target_of(dir, name);
    let folder = job_on(dir, name, Task::RemoveFolder { path: name });
    if is_history(real_path, folder, replies, disks) && p != marker_in(target) {
        a_command_changes_only_its_files(real_path, folder, replies, disks, p);
    }
    let note = job_on(dir, name, Task::RemoveNote);
    if is_history(real_path, note, replies, disks) && p != target {
        a_command_changes_only_its_files(real_path, note, replies, disks, p);
    }
    let attachment = job_on(dir, name, Task::RemoveAttachment);
    if is_history(real_path, attachment, replies, disks) && p != target {
        a_command_changes_only_its_files(real_path, attachment, replies, disks, p);
    }
    let tree = job_on(dir, name, Task::RemoveTree);
    if is_history(real_path, tree, replies, disks) && !target.is_prefix_of(p) {
        if !is_aside(target, p) {
            a_command_changes_only_its_files(real_path, tree, replies, disks, p);
        } else if disks[0].contains_key(p) {
            a_tree_removal_is_emptying(real_path, dir, name, replies, disks);
            assert(is_same_at(disks[0], disks.last(), p));
        }
    }
}

/// How far the file has come that a save of `bytes` to `target` began on the disk `first`.
spec fn is_saving(
    phase: PhaseView,
    first: Disk,
    disk: Disk,
    target: Path,
    bytes: Seq<u8>,
) -> bool {
    let staging = staging_of(target);
    &&& forall|q: Path| q != target && q != staging ==> #[trigger] is_same_at(first, disk, q)
    &&& match phase {
        Phase::Resolve { at, task } => is_same_at(first, disk, target) && match task {
            Task::Save { bytes: b, .. } => at.target == target && b == bytes,
            Task::CreateFolder => marker_in(at.target) == target && bytes == Seq::<u8>::empty(),
            _ => false,
        },
        Phase::MakeFolder { then_do, .. } => {
            &&& then_do matches AfterFolder::Save { target: t, bytes: b, .. } && t == target && b
                == bytes
            &&& is_same_at(first, disk, target)
        },
        Phase::Save { at, target: t, .. } => t == target && is_same_at(first, disk, target)
            && match at {
            SavingView::Stage { target: t, staging: s, bytes: b } => t == target && s == staging
                && b == bytes,
            SavingView::Publish { target: t, staging: s } => t == target && s == staging && holds(
                disk,
                staging,
                bytes,
            ),
            SavingView::Discard { staging: s, .. } => s == staging,
        },
        Phase::Stat { target: t, why } => t == target && holds(disk, target, bytes)
            && !disk.contains_key(staging) && why is Stamp,
        Phase::Finished { end } => (holds(disk, target, bytes) && !disk.contains_key(staging) && (
        end matches Ok(Outcome::Stamp(ms)) ==> disk[target].modified_ms == ms)) || (end is Err
            && is_same_at(first, disk, target)),
        _ => false,
    }
}

proof fn saving_goes_on(
    real_path: Real,
    dir: Seq<char>,
    phase: PhaseView,
    first: Disk,
    before: Disk,
    reply: Reply,
    after: Disk,
    target: Path,
    bytes: Seq<u8>,
)
    requires
        is_saving(phase, first, before, target, bytes),
        phase_request(phase) matches Some(request) && performs(
            real_path,
            before,
            request,
            reply,
            after,
        ),
    ensures
        is_saving(phase_next(dir, phase, reply), first, after, target, bytes),
{
    staging_is_beside_the_target(target);
    let staging = staging_of(target);
    assert forall|q: Path| q != target && q != staging implies #[trigger] is_same_at(
        first,
        after,
        q,
    ) by {
        assert(is_same_at(first, before, q));
        if let Some(FsRequest::WriteFile(p, _)) = phase_request(phase) {
            assert(p == staging);
            assert(is_same_at(before, after, q));
        }
    }
    if let Some(FsRequest::WriteFile(p, _)) = phase_request(phase) {
        assert(is_same_at(before, after, target));
    }
}

proof fn reached_is_saving(
    real_path: Real,
    job: JobView,
    replies: Seq<Reply>,
    disks: Seq<Disk>,
    target: Path,
    bytes: Seq<u8>,
)
    requires
        is_history(real_path, job, replies, disks),
        is_saving(job.phase, disks[0], disks[0], target, bytes),
    ensures
        is_saving(reached(job, replies).phase, disks[0], disks.last(), target, bytes),
    decreases replies.len(),
{
    if replies.len() > 0 {
        let earlier = replies.drop_last();
        let shorter = disks.drop_last();
        assert(shorter.last() == disks[disks.len() - 2]);
        assert(shorter[0] == disks[0]);
        reached_is_saving(real_path, job, earlier, shorter, target, bytes);
        saving_goes_on(
            real_path,
            reached(job, earlier).dir,
            reached(job, earlier).phase,
            disks[0],
            shorter.last(),
            replies.last(),
            disks.last(),
            target,
            bytes,
        );
    }
}

/// A save is all or nothing, at any time and so also where the program is stopped in its midst:
/// the file is as it was or holds all of the new content. Once the save has succeeded it holds the
/// new content, the staging file is gone, and the time that is given back is that of its last
/// change. All other files but the staging file are as they were.
pub proof fn a_save_is_all_or_nothing(
    real_path: Real,
    dir: Seq<char>,
    name: Seq<char>,
    bytes: Seq<u8>,
    stamp: bool,
    replies: Seq<Reply>,
    disks: Seq<Disk>,
    p: Path,
)
    requires
        is_history(real_path, job_on(dir, name, Task::Save { bytes, stamp }), replies, disks),
    ensures
        ({
            let target = target_of(dir, name);
            let end = reached(job_on(dir, name, Task::Save { bytes, stamp }), replies).phase;
            &&& is_same_at(disks[0], disks.last(), target) || holds(disks.last(), target, bytes)
            &&& end matches Phase::Finished { end: Ok(_) } ==> holds(disks.last(), target, bytes)
                && !disks.last().contains_key(staging_of(target))
            &&& end matches Phase::Finished { end: Ok(Outcome::Stamp(ms)) }
                ==> disks.last()[target].modified_ms == ms
            &&& p != target && p != staging_of(target) ==> is_same_at(disks[0], disks.last(), p)
        }),
{
    let job = job_on(dir, name, Task::Save { bytes, stamp });
    let target = target_of(dir, name);
    reached_is_saving(real_path, job, replies, disks, target, bytes);
    assert(p != target && p != staging_of(target) ==> is_same_at(disks[0], disks.last(), p));
}

/// A folder that was created has its marker, the staging file of the marker is gone, and no other
/// file was changed.
pub proof fn a_created_folder_has_its_marker(
    real_path: Real,
    dir: Seq<char>,
    path: Seq<char>,
    replies: Seq<Reply>,
    disks: Seq<Disk>,
    p: Path,
)
    requires
        is_history(real_path, job_on(dir, path, Task::CreateFolder), replies, disks),
    ensures
        ({
            let marker = marker_in(target_of(dir, path));
            let end = reached(job_on(dir, path, Task::CreateFolder), replies).phase;
            &&& end matches Phase::Finished { end: Ok(_) } ==> holds(
                disks.last(),
                marker,
                Seq::empty(),
            ) && !disks.last().contains_key(staging_of(marker))
            &&& p != marker && p != staging_of(marker) ==> is_same_at(disks[0], disks.last(), p)
        }),
{
    let job = job_on(dir, path, Task::CreateFolder);
    let marker = marker_in(target_of(dir, path));
    reached_is_saving(real_path, job, replies, disks, marker, Seq::empty());
    assert(p != marker && p != staging_of(marker) ==> is_same_at(disks[0], disks.last(), p));
}

/// The note that a file reads as.
pub open spec fn note_of(name: Seq<char>, file: Stored, text: Seq<char>) -> FullView {
    NoteFull { name, modified_ms: file.modified_ms, content: text }
}

/// How far the reading of a note has come.
pub open spec fn is_reading(
    phase: PhaseView,
    disk: Disk,
    target: Path,
    name: Seq<char>,
    text: Seq<char>,
) -> bool {
    match phase {
        Phase::Resolve { at, task } => at.target == target && (
        task matches Task::ReadNote { name: n } && n == name),
        Phase::Stat { target: t, why } => t == target && (
        why matches StatUse::Note { name: n } && n == name),
        Phase::ReadNote { target: t, name: n, modified_ms } => t == target && n == name
            && modified_ms == disk[target].modified_ms,
        Phase::Finished { end } => end matches Ok(value) ==> value == OutcomeView::Note(
            Some(note_of(name, disk[target], text)),
        ),
        _ => false,
    }
}

proof fn reached_is_reading(
    real_path: Real,
    job: JobView,
    replies: Seq<Reply>,
    disks: Seq<Disk>,
    target: Path,
    name: Seq<char>,
    text: Seq<char>,
)
    requires
        is_history(real_path, job, replies, disks),
        holds(disks[0], target, utf8(text)),
        is_reading(job.phase, disks[0], target, name, text),
    ensures
        is_reading(reached(job, replies).phase, disks[0], target, name, text),
        disks.last() == disks[0],
    decreases replies.len(),
{
    if replies.len() > 0 {
        let earlier = replies.drop_last();
        let shorter = disks.drop_last();
        assert(shorter.last() == disks[disks.len() - 2]);
        assert(shorter[0] == disks[0]);
        reached_is_reading(real_path, job, earlier, shorter, target, name, text);
        vstd::utf8::encode_utf8_valid_utf8(text);
        vstd::utf8::encode_utf8_decode_utf8(text);
        assert(target.subrange(0, target.len() as int) =~= target);
        assert(target.is_prefix_of(target));
    }
}

/// Whether an answer reports a fault.
pub open spec fn is_fault(reply: Reply) -> bool {
    match reply {
        Reply::Canonical(res) => res is Err,
        Reply::Link(res) => res is Err,
        Reply::Meta(res) => res is Err,
        Reply::Exists(_) => false,
        Reply::Entries(res) => res is Err,
        Reply::Bytes(res) => res is Err,
        Reply::Done(res) => res is Err,
        Reply::Launched(res) => res is Err,
    }
}

/// Whether no answer reports a fault.
pub open spec fn is_faultless(replies: Seq<Reply>) -> bool {
    forall|i: int| 0 <= i < replies.len() ==> !is_fault(#[trigger] replies[i])
}

proof fn reading_without_faults_succeeds(
    real_path: Real,
    job: JobView,
    replies: Seq<Reply>,
    disks: Seq<Disk>,
    root: Path,
    target: Path,
    name: Seq<char>,
    text: Seq<char>,
)
    requires
        is_history(real_path, job, replies, disks),
        is_faultless(replies),
        holds(disks[0], target, utf8(text)),
        real_path(root).is_prefix_of(real_path(target)),
        is_reading(job.phase, disks[0], target, name, text),
        job.phase matches Phase::Resolve { at, .. } && at.root == root && at.stage is FindRoot,
    ensures
        ({
            let phase = reached(job, replies).phase;
            &&& phase matches Phase::Resolve { at, .. } ==> at.root == root && match at.stage {
                ConfineStage::FindRoot => true,
                ConfineStage::Probe { canon_root, probe, .. } => canon_root == real_path(root)
                    && probe == target,
                ConfineStage::Look { .. } => false,
            }
            &&& phase matches Phase::Finished { end } ==> end is Ok
        }),
    decreases replies.len(),
{
    if replies.len() > 0 {
        let earlier = replies.drop_last();
        let shorter = disks.drop_last();
        assert(shorter.last() == disks[disks.len() - 2]);
        assert(shorter[0] == disks[0]);
        assert(is_faultless(earlier)) by {
            assert forall|i: int| 0 <= i < earlier.len() implies !is_fault(#[trigger] earlier[i]) by {
                assert(earlier[i] == replies[i]);
            }
        }
        assert(!is_fault(replies[replies.len() - 1]));
        reached_is_reading(real_path, job, earlier, shorter, target, name, text);
        reading_without_faults_succeeds(
            real_path,
            job,
            earlier,
            shorter,
            root,
            target,
            name,
            text,
        );
        vstd::utf8::encode_utf8_valid_utf8(text);
    }
}

/// A note reads as its file: reading it gives the text that the file encodes and the time of its
/// last change, or it fails. It fails only where an operation does or the note really lies outside
/// the picked folder. It never says that the note is missing.
pub proof fn a_note_reads_as_its_text(
    real_path: Real,
    dir: Seq<char>,
    name: Seq<char>,
    text: Seq<char>,
    replies: Seq<Reply>,
    disks: Seq<Disk>,
)
    requires
        holds(disks[0], target_of(dir, name), utf8(text)),
        is_history(real_path, job_on(dir, name, Task::ReadNote { name }), replies, disks),
    ensures
        ({
            let target = target_of(dir, name);
            let end = reached(job_on(dir, name, Task::ReadNote { name }), replies).phase;
            &&& end matches Phase::Finished { end: Ok(value) } ==> value == OutcomeView::Note(
                Some(note_of(name, disks[0][target], text)),
            )
            &&& end is Finished && is_faultless(replies) && !escapes(components(utf8(name)))
                && real_path(root_of(dir)).is_prefix_of(real_path(target)) ==> end == done(
                Outcome::Note(Some(note_of(name, disks[0][target], text))),
            )
        }),
{
    let job = job_on(dir, name, Task::ReadNote { name });
    let target = target_of(dir, name);
    reached_is_reading(real_path, job, replies, disks, target, name, text);
    if is_faultless(replies) && !escapes(components(utf8(name))) && real_path(
        root_of(dir),
    ).is_prefix_of(real_path(target)) {
        reading_without_faults_succeeds(
            real_path,
            job,
            replies,
            disks,
            root_of(dir),
            target,
            name,
            text,
        );
    }
}

/// What was written is what is read: after a note was saved, reading it gives back its name, its
/// text and the time that the save gave; where no operation fails, and the note really lies inside
/// the picked folder, it does.
pub proof fn a_saved_note_reads_back(
    real_path: Real,
    dir: Seq<char>,
    name: Seq<char>,
    text: Seq<char>,
    ms: u128,
    written: Seq<Reply>,
    disks: Seq<Disk>,
    read: Seq<Reply>,
    later: Seq<Disk>,
)
    requires
        is_history(
            real_path,
            job_on(dir, name, Task::Save { bytes: utf8(text), stamp: true }),
            written,
            disks,
        ),
        reached(job_on(dir, name, Task::Save { bytes: utf8(text), stamp: true }), written).phase
            == done(Outcome::Stamp(ms)),
        is_history(real_path, job_on(dir, name, Task::ReadNote { name }), read, later),
        later[0] == disks.last(),
    ensures
        ({
            let note = NoteFull { name, modified_ms: ms, content: text };
            let end = reached(job_on(dir, name, Task::ReadNote { name }), read).phase;
            &&& end matches Phase::Finished { end: Ok(value) } ==> value == OutcomeView::Note(
                Some(note),
            )
            &&& end is Finished && is_faultless(read) && real_path(root_of(dir)).is_prefix_of(
                real_path(target_of(dir, name)),
            ) ==> end == done(Outcome::Note(Some(note)))
        }),
{
    let target = target_of(dir, name);
    a_save_is_all_or_nothing(
        real_path,
        dir,
        name,
        utf8(text),
        true,
        written,
        disks,
        target,
    );
    if escapes(components(utf8(name))) {
        refused_stays_refused(
            real_path,
            job_on(dir, name, Task::Save { bytes: utf8(text), stamp: true }),
            written,
            disks,
        );
    }
    a_note_reads_as_its_text(real_path, dir, name, text, read, later);
}

/// How far the reading of an attachment has come.
pub open spec fn is_fetching(phase: PhaseView, target: Path, bytes: Seq<u8>) -> bool {
    match phase {
        Phase::Resolve { at, task } => at.target == target && task is ReadAttachment,
        Phase::ReadAttachment { target: t } => t == target,
        Phase::Finished { end } => end matches Ok(value) ==> (value matches Outcome::Bytes(Some(b))
            && b == bytes),
        _ => false,
    }
}

proof fn reached_is_fetching(
    real_path: Real,
    job: JobView,
    replies: Seq<Reply>,
    disks: Seq<Disk>,
    target: Path,
    bytes: Seq<u8>,
)
    requires
        is_history(real_path, job, replies, disks),
        holds(disks[0], target, bytes),
        is_fetching(job.phase, target, bytes),
    ensures
        is_fetching(reached(job, replies).phase, target, bytes),
        disks.last() == disks[0],
    decreases replies.len(),
{
    if replies.len() > 0 {
        let shorter = disks.drop_last();
        assert(shorter.last() == disks[disks.len() - 2]);
        assert(shorter[0] == disks[0]);
        reached_is_fetching(real_path, job, replies.drop_last(), shorter, target, bytes);
    }
}

proof fn fetching_without_faults_succeeds(
    real_path: Real,
    job: JobView,
    replies: Seq<Reply>,
    disks: Seq<Disk>,
    root: Path,
    target: Path,
    bytes: Seq<u8>,
)
    requires
        is_history(real_path, job, replies, disks),
        is_faultless(replies),
        holds(disks[0], target, bytes),
        real_path(root).is_prefix_of(real_path(target)),
        is_fetching(job.phase, target, bytes),
        job.phase matches Phase::Resolve { at, .. } && at.root == root && at.stage is FindRoot,
    ensures
        ({
            let phase = reached(job, replies).phase;
            &&& phase matches Phase::Resolve { at, .. } ==> at.root == root && match at.stage {
                ConfineStage::FindRoot => true,
                ConfineStage::Probe { canon_root, probe, .. } => canon_root == real_path(root)
                    && probe == target,
                ConfineStage::Look { .. } => false,
            }
            &&& phase matches Phase::Finished { end } ==> end is Ok
        }),
    decreases replies.len(),
{
    if replies.len() > 0 {
        let earlier = replies.drop_last();
        let shorter = disks.drop_last();
        assert(shorter.last() == disks[disks.len() - 2]);
        assert(shorter[0] == disks[0]);
        assert(is_faultless(earlier)) by {
            assert forall|i: int| 0 <= i < earlier.len() implies !is_fault(#[trigger] earlier[i]) by {
                assert(earlier[i] == replies[i]);
            }
        }
        assert(!is_fault(replies[replies.len() - 1]));
        reached_is_fetching(real_path, job, earlier, shorter, target, bytes);
        fetching_without_faults_succeeds(real_path, job, earlier, shorter, root, target, bytes);
    }
}

/// An attachment reads as its bytes: after it was saved, reading it gives them back, or it fails; it
/// fails only where an operation does or the attachment really lies outside the picked folder. It
/// never says that the attachment is missing.
pub proof fn a_saved_attachment_reads_back(
    real_path: Real,
    dir: Seq<char>,
    name: Seq<char>,
    bytes: Seq<u8>,
    stamp: bool,
    written: Seq<Reply>,
    disks: Seq<Disk>,
    read: Seq<Reply>,
    later: Seq<Disk>,
)
    requires
        is_history(real_path, job_on(dir, name, Task::Save { bytes, stamp }), written, disks),
        reached(job_on(dir, name, Task::Save { bytes, stamp }), written).phase
            matches Phase::Finished { end: Ok(_) },
        is_history(real_path, job_on(dir, name, Task::ReadAttachment), read, later),
        later[0] == disks.last(),
    ensures
        ({
            let end = reached(job_on(dir, name, Task::ReadAttachment), read).phase;
            &&& end matches Phase::Finished { end: Ok(value) } ==> value == OutcomeView::Bytes(
                Some(bytes),
            )
            &&& end is Finished && is_faultless(read) && real_path(root_of(dir)).is_prefix_of(
                real_path(target_of(dir, name)),
            ) ==> end == done(Outcome::Bytes(Some(bytes)))
        }),
{
    let target = target_of(dir, name);
    let job = job_on(dir, name, Task::ReadAttachment);
    a_save_is_all_or_nothing(real_path, dir, name, bytes, stamp, written, disks, target);
    if escapes(components(utf8(name))) {
        refused_stays_refused(
            real_path,
            job_on(dir, name, Task::Save { bytes, stamp }),
            written,
            disks,
        );
    }
    reached_is_fetching(real_path, job, read, later, target, bytes);
    if is_faultless(read) && real_path(root_of(dir)).is_prefix_of(real_path(target)) {
        fetching_without_faults_succeeds(
            real_path,
            job,
            read,
            later,
            root_of(dir),
            target,
            bytes,
        );
    }
}

proof fn reached_one_more(job: JobView, replies: Seq<Reply>, reply: Reply)
    ensures
        reached(job, replies.push(reply)) == job_next(reached(job, replies), reply),
        reached(job, Seq::empty()) == job,
{
    assert(replies.push(reply).drop_last() =~= replies);
}

proof fn a_save_comes_to_its_end(dir: Seq<char>, target: Path, bytes: Seq<u8>, meta: FileMeta)
    requires
        parent_of(target) is Some,
    ensures
        ({
            let ok = Reply::Done(Ok(()));
            reached(
                JobView { dir, phase: resolved(dir, Task::Save { bytes, stamp: true }, target) },
                seq![ok, ok, ok, Reply::Meta(Ok(meta))],
            ).phase == done(Outcome::Stamp(modified_of(meta)))
        }),
{
    let ok = Reply::Done(Ok(()));
    let stat = Reply::Meta(Ok(meta));
    let save = JobView { dir, phase: resolved(dir, Task::Save { bytes, stamp: true }, target) };
    let made = job_next(save, ok);
    let staged = job_next(made, ok);
    let published = job_next(staged, ok);
    assert(published.phase == PhaseView::Stat { target, why: StatUse::Stamp });
    reached_one_more(save, Seq::empty(), ok);
    reached_one_more(save, seq![ok], ok);
    reached_one_more(save, seq![ok, ok], ok);
    reached_one_more(save, seq![ok, ok, ok], stat);
    assert(Seq::empty().push(ok) =~= seq![ok]);
    assert(seq![ok].push(ok) =~= seq![ok, ok]);
    assert(seq![ok, ok].push(ok) =~= seq![ok, ok, ok]);
    assert(seq![ok, ok, ok].push(stat) =~= seq![ok, ok, ok, stat]);
}

/// Once a path is known to stay inside, a save succeeds if each of its operations does, and gives
/// back the last change where that is asked for; a note then reads as its text, if reading it does
/// not fail.
pub proof fn saving_and_reading_succeed(
    dir: Seq<char>,
    name: Seq<char>,
    target: Path,
    text: Seq<char>,
    meta: FileMeta,
)
    requires
        parent_of(target) is Some,
    ensures
        ({
            let ok = Reply::Done(Ok(()));
            let save = Task::Save { bytes: utf8(text), stamp: true };
            reached(
                JobView { dir, phase: resolved(dir, save, target) },
                seq![ok, ok, ok, Reply::Meta(Ok(meta))],
            ).phase == done(Outcome::Stamp(modified_of(meta)))
        }),
        reached(
            JobView { dir, phase: resolved(dir, Task::ReadNote { name }, target) },
            seq![Reply::Meta(Ok(meta)), Reply::Bytes(Ok(utf8(text)))],
        ).phase == done(
            Outcome::Note(
                Some(NoteFull { name, modified_ms: modified_of(meta), content: text }),
            ),
        ),
{
    a_save_comes_to_its_end(dir, target, utf8(text), meta);
    vstd::utf8::encode_utf8_valid_utf8(text);
    vstd::utf8::encode_utf8_decode_utf8(text);
    let stat = Reply::Meta(Ok(meta));
    let bytes = Reply::Bytes(Ok(utf8(text)));
    let read = JobView { dir, phase: resolved(dir, Task::ReadNote { name }, target) };
    reached_one_more(read, Seq::empty(), stat);
    reached_one_more(read, seq![stat], bytes);
    assert(Seq::empty().push(stat) =~= seq![stat]);
    assert(seq![stat].push(bytes) =~= seq![stat, bytes]);
}

/// Whether the file `from` of the disk `first` is now at `to`, where there was none, and all other
/// files are as they were.
spec fn is_moved(first: Disk, disk: Disk, from: Path, to: Path) -> bool {
    &&& !first.contains_key(to)
    &&& holds(disk, to, first[from].bytes)
    &&& forall|q: Path| q != from && q != to ==> #[trigger] is_same_at(first, disk, q)
}

/// How far the rename of the file `from` to `to` has come that began on the disk `first`.
spec fn is_renaming(
    real_path: Real,
    dir: Seq<char>,
    phase: PhaseView,
    first: Disk,
    disk: Disk,
    from: Path,
    to: Path,
) -> bool {
    match phase {
        Phase::Resolve { at, task } => disk == first && match task {
            Task::RenameFrom { to: name } => at.target == from && target_of(dir, name) == to,
            Task::RenameTo { from: f, .. } => at.target == to && f == from,
            _ => false,
        },
        Phase::Exists { target, why } => disk == first && target == to && (
        why matches ExistsUse::RenameFrom { from: f, .. } && f == from),
        Phase::SameFrom { from: f, target, .. } => disk == first && f == from && target == to,
        Phase::SameTo { from: f, target, canon_from, .. } => disk == first && f == from && target
            == to && (canon_from matches Some(c) ==> c == real_path(from)),
        Phase::MakeFolder { then_do, .. } => disk == first && !first.contains_key(to) && (
        then_do matches AfterFolder::Rename { from: f, to: t, .. } && f == from && t == to),
        Phase::Rename { at, from: f, to: t } => f == from && t == to && match at {
            MovingView::Rename { from: f, to: t, .. } => disk == first && !first.contains_key(to) && f
                == from && t == to,
            MovingView::Copy { from: f, to: t, .. } => disk == first && !first.contains_key(to)
                && f == from && t == to,
            MovingView::Drop { from: f } => f == from && is_moved(first, disk, from, to),
        },
        Phase::Prune { stamp, .. } => stamp == Some(to) && is_moved(first, disk, from, to),
        Phase::Stat { target, why } => target == to && why is Stamp && is_moved(
            first,
            disk,
            from,
            to,
        ),
        Phase::Finished { end } => is_moved(first, disk, from, to) || (end is Err
            && is_same_at(first, disk, from) && (first.contains_key(to) ==> is_same_at(
            first,
            disk,
            to,
        )) && is_same_but(first, disk, to)),
        _ => false,
    }
}

proof fn renaming_goes_on(
    real_path: Real,
    dir: Seq<char>,
    phase: PhaseView,
    first: Disk,
    before: Disk,
    reply: Reply,
    after: Disk,
    from: Path,
    to: Path,
)
    requires
        first.contains_key(from),
        from != to,
        real_path(from) != real_path(to),
        is_renaming(real_path, dir, phase, first, before, from, to),
        phase_request(phase) matches Some(request) && performs(
            real_path,
            before,
            request,
            reply,
            after,
        ),
    ensures
        is_renaming(real_path, dir, phase_next(dir, phase, reply), first, after, from, to),
{
    assert(to.subrange(0, to.len() as int) =~= to);
    match phase {
        Phase::Exists { target, .. } => {
            assert(target.is_prefix_of(to));
        },
        Phase::Rename { at, .. } => {
            match at {
                MovingView::Rename { .. } => {
                    if reply is Done && reply->Done_0 is Ok {
                        assert(is_moved(first, after, from, to));
                    }
                },
                MovingView::Copy { .. } => {
                    if reply is Done && reply->Done_0 is Ok {
                        assert(is_moved(first, after, from, to));
                    } else {
                        assert(is_same_at(before, after, from));
                    }
                },
                MovingView::Drop { .. } => {
                    assert forall|q: Path| q != from && q != to implies #[trigger] is_same_at(
                        first,
                        after,
                        q,
                    ) by {
                        assert(is_same_at(first, before, q));
                    }
                    assert(is_moved(first, after, from, to));
                },
            }
        },
        _ => {},
    }
}

proof fn reached_is_renaming(
    real_path: Real,
    job: JobView,
    replies: Seq<Reply>,
    disks: Seq<Disk>,
    from: Path,
    to: Path,
)
    requires
        disks[0].contains_key(from),
        from != to,
        real_path(from) != real_path(to),
        is_history(real_path, job, replies, disks),
        is_renaming(real_path, job.dir, job.phase, disks[0], disks[0], from, to),
    ensures
        reached(job, replies).dir == job.dir,
        is_renaming(
            real_path,
            job.dir,
            reached(job, replies).phase,
            disks[0],
            disks.last(),
            from,
            to,
        ),
    decreases replies.len(),
{
    if replies.len() > 0 {
        let earlier = replies.drop_last();
        let shorter = disks.drop_last();
        assert(shorter.last() == disks[disks.len() - 2]);
        assert(shorter[0] == disks[0]);
        reached_is_renaming(real_path, job, earlier, shorter, from, to);
        renaming_goes_on(
            real_path,
            job.dir,
            reached(job, earlier).phase,
            disks[0],
            shorter.last(),
            replies.last(),
            disks.last(),
            from,
            to,
        );
    }
}

/// A rename loses nothing, at any time: the content of the note is at its old or at its new place,
/// another note that was at the new place is still there, and all other files are as they were.
/// Once the rename has succeeded the content is at the new place. (Of two spellings of one file
/// `a_respelled_note_keeps_its_content` speaks.)
pub proof fn a_rename_loses_nothing(
    real_path: Real,
    dir: Seq<char>,
    old_name: Seq<char>,
    new_name: Seq<char>,
    replies: Seq<Reply>,
    disks: Seq<Disk>,
    p: Path,
)
    requires
        is_history(
            real_path,
            job_on(dir, old_name, Task::RenameFrom { to: new_name }),
            replies,
            disks,
        ),
        disks[0].contains_key(target_of(dir, old_name)),
        target_of(dir, old_name) != target_of(dir, new_name),
        real_path(target_of(dir, old_name)) != real_path(target_of(dir, new_name)),
    ensures
        ({
            let from = target_of(dir, old_name);
            let to = target_of(dir, new_name);
            let end = reached(job_on(dir, old_name, Task::RenameFrom { to: new_name }), replies).phase;
            &&& holds(disks.last(), from, disks[0][from].bytes) || holds(
                disks.last(),
                to,
                disks[0][from].bytes,
            )
            &&& end matches Phase::Finished { end: Ok(_) } ==> holds(
                disks.last(),
                to,
                disks[0][from].bytes,
            )
            &&& disks[0].contains_key(to) ==> is_same_at(disks[0], disks.last(), to)
            &&& p != from && p != to ==> is_same_at(disks[0], disks.last(), p)
        }),
{
    let from = target_of(dir, old_name);
    let to = target_of(dir, new_name);
    let job = job_on(dir, old_name, Task::RenameFrom { to: new_name });
    reached_is_renaming(real_path, job, replies, disks, from, to);
    assert(is_moved(disks[0], disks.last(), from, to) ==> is_same_at(disks[0], disks.last(), p)
        || p == from || p == to);
    assert(is_same_but(disks[0], disks.last(), to) ==> is_same_at(disks[0], disks.last(), p) || p
        == to);
}

/// Under which path a disk keeps what a path names: one that does not tell capitals from small
/// letters keeps the files of all spellings under one.
pub type Spelling = spec_fn(Path) -> Path;

/// An operation with each path under which the disk keeps what it names.
pub open spec fn kept_as(key: Spelling, request: Request) -> Request {
    match request {
        FsRequest::Canonicalize(p) => FsRequest::Canonicalize(key(p)),
        FsRequest::ReadLink(p) => FsRequest::ReadLink(key(p)),
        FsRequest::Metadata(p) => FsRequest::Metadata(key(p)),
        FsRequest::Exists(p) => FsRequest::Exists(key(p)),
        FsRequest::ReadDir(p) => FsRequest::ReadDir(key(p)),
        FsRequest::ReadFile(p) => FsRequest::ReadFile(key(p)),
        FsRequest::ReadHead(p, n) => FsRequest::ReadHead(key(p), n),
        FsRequest::WriteFile(p, bytes) => FsRequest::WriteFile(key(p), bytes),
        FsRequest::CreateDirAll(p) => FsRequest::CreateDirAll(key(p)),
        FsRequest::Rename(a, b) => FsRequest::Rename(key(a), key(b)),
        FsRequest::Copy(a, b) => FsRequest::Copy(key(a), key(b)),
        FsRequest::RemoveFile(p) => FsRequest::RemoveFile(key(p)),
        FsRequest::RemoveDir(p) => FsRequest::RemoveDir(key(p)),
        FsRequest::RemoveDirAll(p) => FsRequest::RemoveDirAll(key(p)),
        FsRequest::Reveal(p) => FsRequest::Reveal(key(p)),
    }
}

/// Whether a command was answered with `replies` by a disk that keeps what paths name under `key`.
pub open spec fn is_history_under(
    real_path: Real,
    key: Spelling,
    job: JobView,
    replies: Seq<Reply>,
    disks: Seq<Disk>,
) -> bool
    decreases replies.len(),
{
    disks.len() == replies.len() + 1 && (replies.len() > 0 ==> {
        &&& is_history_under(real_path, key, job, replies.drop_last(), disks.drop_last())
        &&& phase_request(reached(job, replies.drop_last()).phase) matches Some(request)
            && performs(
            real_path,
            disks[disks.len() - 2],
            kept_as(key, request),
            replies.last(),
            disks.last(),
        )
    })
}

/// How far a rename has come whose two names are one file; no file has changed.
spec fn is_respelling(dir: Seq<char>, phase: PhaseView, from: Path, to: Path) -> bool {
    match phase {
        Phase::Resolve { at, task } => match task {
            Task::RenameFrom { to: name } => at.target == from && target_of(dir, name) == to,
            Task::RenameTo { from: f, .. } => at.target == to && f == from,
            _ => false,
        },
        Phase::Exists { target, why } => target == to && (
        why matches ExistsUse::RenameFrom { from: f, .. } && f == from),
        Phase::SameFrom { from: f, target, .. } => f == from && target == to,
        Phase::SameTo { from: f, target, .. } => f == from && target == to,
        Phase::MakeFolder { then_do, .. } => then_do matches AfterFolder::Rename {
            from: f,
            to: t,
            same,
        } && f == from && t == to && same,
        Phase::Rename { at, from: f, to: t } => f == from && t == to && (
        at matches MovingView::Rename { from: f, to: t, may_copy } && f == from && t == to
            && !may_copy),
        Phase::Prune { stamp, .. } => stamp == Some(to),
        Phase::Stat { target, why } => target == to && why is Stamp,
        Phase::Finished { .. } => true,
        _ => false,
    }
}

proof fn reached_is_respelling(
    real_path: Real,
    key: Spelling,
    job: JobView,
    replies: Seq<Reply>,
    disks: Seq<Disk>,
    from: Path,
    to: Path,
)
    requires
        key(from) == key(to),
        disks[0].contains_key(key(from)),
        is_history_under(real_path, key, job, replies, disks),
        is_respelling(job.dir, job.phase, from, to),
    ensures
        reached(job, replies).dir == job.dir,
        is_respelling(job.dir, reached(job, replies).phase, from, to),
        disks.last() == disks[0],
    decreases replies.len(),
{
    if replies.len() > 0 {
        let earlier = replies.drop_last();
        let shorter = disks.drop_last();
        assert(shorter.last() == disks[disks.len() - 2]);
        assert(shorter[0] == disks[0]);
        reached_is_respelling(real_path, key, job, earlier, shorter, from, to);
        let k = key(from);
        assert(k.subrange(0, k.len() as int) =~= k);
        assert(k.is_prefix_of(k));
        if reached(job, earlier).phase is Rename {
            assert(renamed(disks[0], k, k) =~= disks[0]);
        }
    }
}

/// A rename that only changes how a name is spelled, where the disk keeps both spellings as one
/// file, leaves every file as it is: at any time, and however it ends, the content is there.
pub proof fn a_respelled_note_keeps_its_content(
    real_path: Real,
    key: Spelling,
    dir: Seq<char>,
    old_name: Seq<char>,
    new_name: Seq<char>,
    replies: Seq<Reply>,
    disks: Seq<Disk>,
)
    requires
        is_history_under(
            real_path,
            key,
            job_on(dir, old_name, Task::RenameFrom { to: new_name }),
            replies,
            disks,
        ),
        key(target_of(dir, old_name)) == key(target_of(dir, new_name)),
        disks[0].contains_key(key(target_of(dir, old_name))),
    ensures
        disks.last() == disks[0],
{
    reached_is_respelling(
        real_path,
        key,
        job_on(dir, old_name, Task::RenameFrom { to: new_name }),
        replies,
        disks,
        target_of(dir, old_name),
        target_of(dir, new_name),
    );
}

/// How far the move of the folder `from` to `to` has come that began on the disk `first`.
spec fn is_moving(
    dir: Seq<char>,
    phase: PhaseView,
    first: Disk,
    disk: Disk,
    from: Path,
    to: Path,
) -> bool {
    let moved = is_vacant(first, to) && disk == renamed(first, from, to);
    match phase {
        Phase::Resolve { at, task } => disk == first && match task {
            Task::MoveFrom { to: name } => at.target == from && target_of(dir, name) == to,
            Task::MoveTo { from: f, .. } => at.target == to && f == from,
            _ => false,
        },
        Phase::Exists { target, why } => disk == first && target == to && (
        why matches ExistsUse::MoveFrom { from: f, .. } && f == from),
        Phase::MakeFolder { then_do, .. } => disk == first && is_vacant(first, to) && (
        then_do matches AfterFolder::Move { from: f, to: t } && f == from && t == to),
        Phase::Move { from: f, to: t } => disk == first && is_vacant(first, to) && f == from && t
            == to,
        Phase::Prune { stamp, .. } => stamp is None && moved,
        Phase::Finished { end } => moved || (end is Err && disk == first),
        _ => false,
    }
}

proof fn reached_is_moving(
    real_path: Real,
    job: JobView,
    replies: Seq<Reply>,
    disks: Seq<Disk>,
    from: Path,
    to: Path,
)
    requires
        is_history(real_path, job, replies, disks),
        is_moving(job.dir, job.phase, disks[0], disks[0], from, to),
    ensures
        reached(job, replies).dir == job.dir,
        is_moving(job.dir, reached(job, replies).phase, disks[0], disks.last(), from, to),
    decreases replies.len(),
{
    if replies.len() > 0 {
        let shorter = disks.drop_last();
        assert(shorter.last() == disks[disks.len() - 2]);
        assert(shorter[0] == disks[0]);
        reached_is_moving(real_path, job, replies.drop_last(), shorter, from, to);
    }
}

/// A folder moves as a whole or not at all: until the move has succeeded every file is where it
/// was; then every file of the folder is in the new one, where nothing was before.
pub proof fn a_folder_moves_as_a_whole(
    real_path: Real,
    dir: Seq<char>,
    old_path: Seq<char>,
    new_path: Seq<char>,
    replies: Seq<Reply>,
    disks: Seq<Disk>,
    rest: Path,
)
    requires
        is_history(
            real_path,
            job_on(dir, old_path, Task::MoveFrom { to: new_path }),
            replies,
            disks,
        ),
        !disks[0].contains_key(target_of(dir, old_path)),
    ensures
        ({
            let from = target_of(dir, old_path);
            let to = target_of(dir, new_path);
            let end = reached(job_on(dir, old_path, Task::MoveFrom { to: new_path }), replies).phase;
            let moved = is_vacant(disks[0], to) && (disks[0].contains_key(from + rest) ==> (
            disks.last().contains_key(to + rest) && disks.last()[to + rest] == disks[0][from
                + rest]));
            &&& disks.last() == disks[0] || moved
            &&& end matches Phase::Finished { end: Ok(_) } ==> moved
        }),
{
    let from = target_of(dir, old_path);
    let to = target_of(dir, new_path);
    let job = job_on(dir, old_path, Task::MoveFrom { to: new_path });
    reached_is_moving(real_path, job, replies, disks, from, to);
    let there = to + rest;
    assert(there.subrange(0, to.len() as int) =~= to);
    assert(there.skip(to.len() as int) =~= rest);
}

/// How far the removal of a file has come.
spec fn is_removing(phase: PhaseView, disk: Disk, target: Path) -> bool {
    match phase {
        Phase::Resolve { at, task } => at.target == target && (task is RemoveNote
            || task is RemoveAttachment),
        Phase::RemoveNote { target: t } => t == target,
        Phase::RemoveAttachment { target: t } => t == target,
        Phase::Prune { stamp, .. } => stamp is None && !disk.contains_key(target),
        Phase::Finished { end } => end is Ok ==> !disk.contains_key(target),
        _ => false,
    }
}

proof fn reached_is_removing(
    real_path: Real,
    job: JobView,
    replies: Seq<Reply>,
    disks: Seq<Disk>,
    target: Path,
)
    requires
        is_history(real_path, job, replies, disks),
        is_removing(job.phase, disks[0], target),
    ensures
        is_removing(reached(job, replies).phase, disks.last(), target),
    decreases replies.len(),
{
    if replies.len() > 0 {
        let shorter = disks.drop_last();
        assert(shorter.last() == disks[disks.len() - 2]);
        assert(shorter[0] == disks[0]);
        reached_is_removing(real_path, job, replies.drop_last(), shorter, target);
        assert(target.subrange(0, target.len() as int) =~= target);
        assert(target.is_prefix_of(target));
    }
}

/// A note or an attachment that was removed is gone.
pub proof fn what_was_removed_is_gone(
    real_path: Real,
    dir: Seq<char>,
    name: Seq<char>,
    task: Task<Path, Seq<u8>, Seq<char>>,
    replies: Seq<Reply>,
    disks: Seq<Disk>,
)
    requires
        task is RemoveNote || task is RemoveAttachment,
        is_history(real_path, job_on(dir, name, task), replies, disks),
        reached(job_on(dir, name, task), replies).phase matches Phase::Finished { end: Ok(_) },
    ensures
        !disks.last().contains_key(target_of(dir, name)),
{
    reached_is_removing(
        real_path,
        job_on(dir, name, task),
        replies,
        disks,
        target_of(dir, name),
    );
}

/// Whether every file below `target` is as it was.
pub open spec fn is_intact(first: Disk, disk: Disk, target: Path) -> bool {
    forall|p: Path| target.is_prefix_of(p) ==> #[trigger] is_same_at(first, disk, p)
}

/// Whether every file that was outside of the folder `target` is as it was.
pub open spec fn is_kept_outside(first: Disk, disk: Disk, target: Path) -> bool {
    forall|p: Path|
        first.contains_key(p) && !target.is_prefix_of(p) ==> #[trigger] is_same_at(first, disk, p)
}

/// How far the removal of the folder `target` with all that is in it has come that began on the
/// disk `first`.
spec fn is_emptying(
    root: Path,
    phase: PhaseView,
    first: Disk,
    disk: Disk,
    target: Path,
) -> bool {
    is_kept_outside(first, disk, target) && match phase {
        Phase::Resolve { at, task } => disk == first && at.target == target && task is RemoveTree,
        Phase::LookTree { target: t } => disk == first && t == target && target.len() > root.len(),
        Phase::ReadFlat { folder, what } => disk == first && folder == target && what is Tree
            && target.len() > root.len(),
        Phase::PickAside { target: t, .. } => disk == first && t == target && !disk.contains_key(
            target,
        ) && target.len() > root.len(),
        Phase::SetAside { target: t, number } => disk == first && t == target
            && !disk.contains_key(target) && is_vacant(first, aside_of(target, number))
            && target.len() > root.len(),
        Phase::DropAside { target: t, number } => is_vacant(disk, target) && t == target
            && is_vacant(first, aside_of(target, number)) && target.len() > root.len(),
        Phase::DropTree { target: t } => disk == first && t == target && target.len()
            <= root.len(),
        Phase::Finished { end } => match end {
            Ok(_) => is_vacant(disk, target),
            Err(_) => is_intact(first, disk, target) || target.len() <= root.len(),
        },
        _ => false,
    }
}

proof fn emptying_goes_on(
    real_path: Real,
    dir: Seq<char>,
    phase: PhaseView,
    first: Disk,
    before: Disk,
    reply: Reply,
    after: Disk,
    target: Path,
)
    requires
        is_emptying(root_of(dir), phase, first, before, target),
        target.len() > root_of(dir).len() ==> target.last() is Name,
        phase_request(phase) matches Some(request) && performs(
            real_path,
            before,
            request,
            reply,
            after,
        ),
    ensures
        is_emptying(root_of(dir), phase_next(dir, phase, reply), first, after, target),
{
    assert(target.subrange(0, target.len() as int) =~= target);
    assert(target.is_prefix_of(target));
    match phase {
        Phase::SetAside { number, .. } => {
            let aside = aside_of(target, number);
            aside_is_beside_the_folder(target, number);
            assert(aside.len() == target.len());
            if reply is Done && reply->Done_0 is Ok {
                assert forall|q: Path| target.is_prefix_of(q) implies !#[trigger] after.contains_key(
                    q,
                ) by {
                    if aside.is_prefix_of(q) {
                        assert(!before.contains_key(q));
                        assert(target + q.skip(aside.len() as int) =~= q);
                    }
                }
                assert forall|p: Path|
                    first.contains_key(p) && !target.is_prefix_of(p) implies #[trigger] is_same_at(
                    first,
                    after,
                    p,
                ) by {
                    assert(!aside.is_prefix_of(p));
                }
            }
        },
        Phase::DropAside { number, .. } => {
            let aside = aside_of(target, number);
            assert forall|q: Path| target.is_prefix_of(q) implies !#[trigger] after.contains_key(
                q,
            ) by {
                assert(!before.contains_key(q));
                assert(is_same_at(before, after, q) || aside.is_prefix_of(q));
            }
            assert forall|p: Path|
                first.contains_key(p) && !target.is_prefix_of(p) implies #[trigger] is_same_at(
                first,
                after,
                p,
            ) by {
                assert(!aside.is_prefix_of(p));
                assert(is_same_at(first, before, p));
                assert(is_same_at(before, after, p));
            }
        },
        Phase::DropTree { .. } => {
            assert forall|p: Path|
                first.contains_key(p) && !target.is_prefix_of(p) implies #[trigger] is_same_at(
                first,
                after,
                p,
            ) by {
                assert(is_same_at(before, after, p));
            }
        },
        _ => {},
    }
}

proof fn reached_is_emptying(
    real_path: Real,
    job: JobView,
    replies: Seq<Reply>,
    disks: Seq<Disk>,
    target: Path,
)
    requires
        target.len() > root_of(job.dir).len() ==> target.last() is Name,
        is_history(real_path, job, replies, disks),
        is_emptying(root_of(job.dir), job.phase, disks[0], disks[0], target),
    ensures
        reached(job, replies).dir == job.dir,
        is_emptying(
            root_of(job.dir),
            reached(job, replies).phase,
            disks[0],
            disks.last(),
            target,
        ),
    decreases replies.len(),
{
    if replies.len() > 0 {
        let earlier = replies.drop_last();
        let shorter = disks.drop_last();
        assert(shorter.last() == disks[disks.len() - 2]);
        assert(shorter[0] == disks[0]);
        reached_is_emptying(real_path, job, earlier, shorter, target);
        emptying_goes_on(
            real_path,
            job.dir,
            reached(job, earlier).phase,
            disks[0],
            shorter.last(),
            replies.last(),
            disks.last(),
            target,
        );
    }
}

proof fn a_tree_removal_is_emptying(
    real_path: Real,
    dir: Seq<char>,
    path: Seq<char>,
    replies: Seq<Reply>,
    disks: Seq<Disk>,
)
    requires
        is_history(real_path, job_on(dir, path, Task::RemoveTree), replies, disks),
    ensures
        is_kept_outside(disks[0], disks.last(), target_of(dir, path)),
        !escapes(components(utf8(path))) ==> is_emptying(
            root_of(dir),
            reached(job_on(dir, path, Task::RemoveTree), replies).phase,
            disks[0],
            disks.last(),
            target_of(dir, path),
        ),
        escapes(components(utf8(path))) ==> replies.len() == 0,
{
    let target = target_of(dir, path);
    let job = job_on(dir, path, Task::RemoveTree);
    if !escapes(components(utf8(path))) {
        resolving_stays_below(root_of(dir), utf8(path));
        if target.len() > root_of(dir).len() {
            assert(target[target.len() - 1] is Name);
        }
        reached_is_emptying(real_path, job, replies, disks, target);
    } else {
        refused_stays_refused(real_path, job, replies, disks);
    }
}

/// A folder that is removed with all that is in it goes as a whole: at any time every file in it is
/// as it was, or none is left there. Where the removal fails every file is as it was; where it
/// succeeds none is left. (The picked folder itself, which nothing stands beside, is left out but
/// for the last.) No file outside of the folder is ever lost or changed.
pub proof fn a_folder_is_removed_as_a_whole(
    real_path: Real,
    dir: Seq<char>,
    path: Seq<char>,
    replies: Seq<Reply>,
    disks: Seq<Disk>,
)
    requires
        is_history(real_path, job_on(dir, path, Task::RemoveTree), replies, disks),
    ensures
        ({
            let target = target_of(dir, path);
            let end = reached(job_on(dir, path, Task::RemoveTree), replies).phase;
            &&& names_something(path) ==> is_intact(disks[0], disks.last(), target) || is_vacant(
                disks.last(),
                target,
            )
            &&& names_something(path) && (end matches Phase::Finished { end: Err(_) })
                ==> is_intact(disks[0], disks.last(), target)
            &&& end matches Phase::Finished { end: Ok(_) } ==> is_vacant(disks.last(), target)
            &&& is_kept_outside(disks[0], disks.last(), target)
        }),
{
    a_named_path_is_longer(root_of(dir), path);
    a_tree_removal_is_emptying(real_path, dir, path, replies, disks);
}

proof fn refused_stays_refused(
    real_path: Real,
    job: JobView,
    replies: Seq<Reply>,
    disks: Seq<Disk>,
)
    requires
        job.phase matches Phase::Finished { end: Err(_) },
        is_history(real_path, job, replies, disks),
    ensures
        replies.len() == 0,
    decreases replies.len(),
{
    if replies.len() > 0 {
        refused_stays_refused(real_path, job, replies.drop_last(), disks.drop_last());
    }
}

} // verus!
