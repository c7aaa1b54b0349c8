//! What a save and a read do on a disk with links, where the saved path may itself be one.

use vstd::prelude::*;

use crate::commands::job_on;
use crate::confine::ConfineStage;
use crate::disk_laws::{
    holds, is_fault, is_faultless, is_fetching, is_reading, target_of, Disk,
};
use crate::fsio::{answers, modified_of, FsRequest, Reply, Request};
use crate::job::{
    done, phase_request, root_of, AfterFolder, JobView, Outcome, OutcomeView, Phase, PhaseView, Task,
};
use crate::job_laws::reached;
use crate::listing::NoteFull;
use crate::path::{components, Path};
use crate::resolve::{escapes, staging_of, utf8};
use crate::save::SavingView;

verus! {

/// A disk with links.
pub struct LinkedDisk {
    /// The file that each path reads as, every link on it followed.
    pub files: Disk,
    /// Each path whose entry is a link, and the place that the link names.
    pub links: Map<Path, Path>,
}

/// Where paths really lead on a disk.
pub type RealOn = spec_fn(LinkedDisk, Path) -> Path;

/// Whether a disk with links can answer the operation so, and is `after` then what it was `before`.
/// Writing a file follows links; a rename of a file that is no link puts it in the place of what is
/// at the new path, and where that is a link, of the link itself. What else an operation changes is
/// left open: the same file may be reached by many paths.
pub open spec fn performs_among_links(
    real_on: RealOn,
    before: LinkedDisk,
    request: Request,
    reply: Reply,
    after: LinkedDisk,
) -> bool {
    answers(request, reply) && match (request, reply) {
        (FsRequest::Canonicalize(p), Reply::Canonical(Ok(found))) => after == before && found
            == real_on(before, p),
        (FsRequest::ReadLink(p), Reply::Link(Ok(Some(to)))) => after == before
            && before.links.contains_key(p) && before.links[p] == to,
        (FsRequest::ReadLink(p), Reply::Link(Ok(None))) => after == before
            && !before.links.contains_key(p),
        (FsRequest::ReadLink(p), Reply::Link(Err(fault))) => after == before && (fault.not_found
            ==> !before.links.contains_key(p) && !before.files.contains_key(p)),
        (FsRequest::Metadata(p), Reply::Meta(Ok(meta))) => after == before && (
        before.files.contains_key(p) ==> modified_of(meta) == before.files[p].modified_ms),
        (FsRequest::Metadata(p), Reply::Meta(Err(fault))) => after == before && (fault.not_found
            ==> !before.files.contains_key(p)),
        (FsRequest::ReadFile(p), Reply::Bytes(Ok(bytes))) => after == before && holds(
            before.files,
            p,
            bytes,
        ),
        (FsRequest::ReadFile(p), Reply::Bytes(Err(fault))) => after == before && (fault.not_found
            ==> !before.files.contains_key(p)),
        (FsRequest::WriteFile(p, bytes), Reply::Done(Ok(_))) => holds(after.files, p, bytes)
            && after.links.contains_key(p) == before.links.contains_key(p),
        (FsRequest::Rename(from, to), Reply::Done(Ok(_))) => before.files.contains_key(from)
            && !before.links.contains_key(from) ==> after.files.contains_key(to) && after.files[to]
            == before.files[from] && !after.links.contains_key(to),
        (FsRequest::WriteFile(..), _) => true,
        (FsRequest::Copy(..), _) => true,
        (FsRequest::RemoveFile(_), _) => true,
        (FsRequest::RemoveDirAll(_), _) => true,
        _ => after == before,
    }
}

/// Whether a command was answered with `replies` by a disk with links, that was `disks[i]` before
/// the answer `i` and `disks[i + 1]` after it.
pub open spec fn is_history_among_links(
    real_on: RealOn,
    job: JobView,
    replies: Seq<Reply>,
    disks: Seq<LinkedDisk>,
) -> bool
    decreases replies.len(),
{
    disks.len() == replies.len() + 1 && (replies.len() > 0 ==> {
        &&& is_history_among_links(real_on, job, replies.drop_last(), disks.drop_last())
        &&& phase_request(reached(job, replies.drop_last()).phase) matches Some(request)
            && performs_among_links(
            real_on,
            disks[disks.len() - 2],
            request,
            replies.last(),
            disks.last(),
        )
    })
}

/// Whether the entry at `p` is no link and reads as this content.
pub open spec fn is_plain(disk: LinkedDisk, p: Path, bytes: Seq<u8>) -> bool {
    holds(disk.files, p, bytes) && !disk.links.contains_key(p)
}

/// How far the save of `bytes` to `target` has come, where what it goes through is no link.
spec fn is_replacing(phase: PhaseView, disk: LinkedDisk, target: Path, bytes: Seq<u8>) -> bool {
    let staging = staging_of(target);
    let is_free = !disk.links.contains_key(staging);
    match phase {
        Phase::Resolve { at, task } => is_free && at.target == target && (
        task matches Task::Save { bytes: b, .. } && b == bytes),
        Phase::MakeFolder { then_do, .. } => is_free && (then_do matches AfterFolder::Save {
            target: t,
            bytes: b,
            ..
        } && t == target && b == bytes),
        Phase::Save { at, target: t, .. } => t == target && match at {
            SavingView::Stage { target: t, staging: s, bytes: b } => is_free && t == target && s
                == staging && b == bytes,
            SavingView::Publish { target: t, staging: s } => t == target && s == staging && is_plain(
                disk,
                staging,
                bytes,
            ),
            SavingView::Discard { .. } => true,
        },
        Phase::Stat { target: t, why } => t == target && why is Stamp && is_plain(
            disk,
            target,
            bytes,
        ),
        Phase::Finished { end } => end matches Ok(value) ==> is_plain(disk, target, bytes) && (
        value matches Outcome::Stamp(ms) ==> disk.files[target].modified_ms == ms),
        _ => false,
    }
}

proof fn reached_is_replacing(
    real_on: RealOn,
    job: JobView,
    replies: Seq<Reply>,
    disks: Seq<LinkedDisk>,
    target: Path,
    bytes: Seq<u8>,
)
    requires
        is_history_among_links(real_on, job, replies, disks),
        is_replacing(job.phase, disks[0], target, bytes),
    ensures
        is_replacing(reached(job, replies).phase, disks.last(), target, bytes),
    decreases replies.len(),
{
    if replies.len() > 0 {
        let shorter = disks.drop_last();
        assert(shorter.last() == disks[disks.len() - 2]);
        assert(shorter[0] == disks[0]);
        reached_is_replacing(real_on, job, replies.drop_last(), shorter, target, bytes);
    }
}

/// A save replaces what is at its path, also where that is a link: once it has succeeded the path is
/// no link and reads as the new content, with the time that was given back. (What the save goes
/// through must be no link: one to the saved path itself would be put in its place.)
pub proof fn a_save_replaces_a_link(
    real_on: RealOn,
    dir: Seq<char>,
    name: Seq<char>,
    bytes: Seq<u8>,
    stamp: bool,
    replies: Seq<Reply>,
    disks: Seq<LinkedDisk>,
)
    requires
        is_history_among_links(
            real_on,
            job_on(dir, name, Task::Save { bytes, stamp }),
            replies,
            disks,
        ),
        !disks[0].links.contains_key(staging_of(target_of(dir, name))),
    ensures
        ({
            let target = target_of(dir, name);
            let end = reached(job_on(dir, name, Task::Save { bytes, stamp }), replies).phase;
            &&& end matches Phase::Finished { end: Ok(_) } ==> is_plain(disks.last(), target, bytes)
            &&& end matches Phase::Finished { end: Ok(Outcome::Stamp(ms)) }
                ==> disks.last().files[target].modified_ms == ms
        }),
{
    let job = job_on(dir, name, Task::Save { bytes, stamp });
    reached_is_replacing(real_on, job, replies, disks, target_of(dir, name), bytes);
}

/// Whether a path is still being judged by its real place, or the command has gone on.
spec fn is_judged_by(phase: PhaseView, root: Path, target: Path, real_root: Path) -> bool {
    phase matches Phase::Resolve { at, .. } ==> at.root == root && match at.stage {
        ConfineStage::FindRoot => true,
        ConfineStage::Probe { canon_root, probe, .. } => canon_root == real_root && probe == target,
        ConfineStage::Look { .. } => false,
    }
}

proof fn faultless_before(replies: Seq<Reply>)
    requires
        is_faultless(replies),
        replies.len() > 0,
    ensures
        is_faultless(replies.drop_last()),
        !is_fault(replies.last()),
{
    let earlier = replies.drop_last();
    assert(!is_fault(replies[replies.len() - 1]));
    assert forall|i: int| 0 <= i < earlier.len() implies !is_fault(#[trigger] earlier[i]) by {
        assert(earlier[i] == replies[i]);
    }
}

proof fn reached_is_reading_among_links(
    real_on: RealOn,
    job: JobView,
    replies: Seq<Reply>,
    disks: Seq<LinkedDisk>,
    root: Path,
    target: Path,
    name: Seq<char>,
    text: Seq<char>,
)
    requires
        is_history_among_links(real_on, job, replies, disks),
        holds(disks[0].files, target, utf8(text)),
        is_reading(job.phase, disks[0].files, target, name, text),
        job.phase is Finished || (job.phase matches Phase::Resolve { at, .. } && at.root == root
            && at.stage is FindRoot),
    ensures
        ({
            let phase = reached(job, replies).phase;
            let real_root = real_on(disks[0], root);
            let is_inside = real_root.is_prefix_of(real_on(disks[0], target));
            &&& is_reading(phase, disks[0].files, target, name, text)
            &&& disks.last() == disks[0]
            &&& is_faultless(replies) && is_inside && !(job.phase is Finished) ==> is_judged_by(
                phase,
                root,
                target,
                real_root,
            ) && (phase matches Phase::Finished { end } ==> end is Ok)
        }),
    decreases replies.len(),
{
    if replies.len() > 0 {
        let earlier = replies.drop_last();
        let shorter = disks.drop_last();
        assert(shorter.last() == disks[disks.len() - 2]);
        assert(shorter[0] == disks[0]);
        reached_is_reading_among_links(
            real_on,
            job,
            earlier,
            shorter,
            root,
            target,
            name,
            text,
        );
        if is_faultless(replies) {
            faultless_before(replies);
        }
        vstd::utf8::encode_utf8_valid_utf8(text);
        vstd::utf8::encode_utf8_decode_utf8(text);
    }
}

/// What was written is what is read, also where the saved path was a link: after the save, reading
/// the note gives back its name, its text and the time that the save gave; where no operation fails,
/// and the path then really lies inside the picked folder, it does.
pub proof fn a_note_saved_over_a_link_reads_back(
    real_on: RealOn,
    dir: Seq<char>,
    name: Seq<char>,
    text: Seq<char>,
    ms: u128,
    written: Seq<Reply>,
    disks: Seq<LinkedDisk>,
    read: Seq<Reply>,
    later: Seq<LinkedDisk>,
)
    requires
        is_history_among_links(
            real_on,
            job_on(dir, name, Task::Save { bytes: utf8(text), stamp: true }),
            written,
            disks,
        ),
        !disks[0].links.contains_key(staging_of(target_of(dir, name))),
        reached(job_on(dir, name, Task::Save { bytes: utf8(text), stamp: true }), written).phase
            == done(Outcome::Stamp(ms)),
        is_history_among_links(real_on, job_on(dir, name, Task::ReadNote { name }), read, later),
        later[0] == disks.last(),
    ensures
        ({
            let note = NoteFull { name, modified_ms: ms, content: text };
            let end = reached(job_on(dir, name, Task::ReadNote { name }), read).phase;
            &&& end matches Phase::Finished { end: Ok(value) } ==> value == OutcomeView::Note(
                Some(note),
            )
            &&& end is Finished && is_faultless(read) && real_on(
                later[0],
                root_of(dir),
            ).is_prefix_of(real_on(later[0], target_of(dir, name))) ==> end == done(
                Outcome::Note(Some(note)),
            )
        }),
{
    let target = target_of(dir, name);
    let save = job_on(dir, name, Task::Save { bytes: utf8(text), stamp: true });
    a_save_replaces_a_link(real_on, dir, name, utf8(text), true, written, disks);
    if escapes(components(utf8(name))) {
        refused_among_links(real_on, save, written, disks);
    }
    reached_is_reading_among_links(
        real_on,
        job_on(dir, name, Task::ReadNote { name }),
        read,
        later,
        root_of(dir),
        target,
        name,
        text,
    );
}

proof fn reached_is_fetching_among_links(
    real_on: RealOn,
    job: JobView,
    replies: Seq<Reply>,
    disks: Seq<LinkedDisk>,
    root: Path,
    target: Path,
    bytes: Seq<u8>,
)
    requires
        is_history_among_links(real_on, job, replies, disks),
        holds(disks[0].files, target, bytes),
        is_fetching(job.phase, target, bytes),
        job.phase is Finished || (job.phase matches Phase::Resolve { at, .. } && at.root == root
            && at.stage is FindRoot),
    ensures
        ({
            let phase = reached(job, replies).phase;
            let real_root = real_on(disks[0], root);
            let is_inside = real_root.is_prefix_of(real_on(disks[0], target));
            &&& is_fetching(phase, target, bytes)
            &&& disks.last() == disks[0]
            &&& is_faultless(replies) && is_inside && !(job.phase is Finished) ==> is_judged_by(
                phase,
                root,
                target,
                real_root,
            ) && (phase matches Phase::Finished { end } ==> end is Ok)
        }),
    decreases replies.len(),
{
    if replies.len() > 0 {
        let earlier = replies.drop_last();
        let shorter = disks.drop_last();
        assert(shorter.last() == disks[disks.len() - 2]);
        assert(shorter[0] == disks[0]);
        reached_is_fetching_among_links(real_on, job, earlier, shorter, root, target, bytes);
        if is_faultless(replies) {
            faultless_before(replies);
        }
    }
}

/// An attachment reads as its bytes, also where the saved path was a link.
pub proof fn an_attachment_saved_over_a_link_reads_back(
    real_on: RealOn,
    dir: Seq<char>,
    name: Seq<char>,
    bytes: Seq<u8>,
    stamp: bool,
    written: Seq<Reply>,
    disks: Seq<LinkedDisk>,
    read: Seq<Reply>,
    later: Seq<LinkedDisk>,
)
    requires
        is_history_among_links(
            real_on,
            job_on(dir, name, Task::Save { bytes, stamp }),
            written,
            disks,
        ),
        !disks[0].links.contains_key(staging_of(target_of(dir, name))),
        reached(job_on(dir, name, Task::Save { bytes, stamp }), written).phase
            matches Phase::Finished { end: Ok(_) },
        is_history_among_links(real_on, job_on(dir, name, Task::ReadAttachment), read, later),
        later[0] == disks.last(),
    ensures
        ({
            let end = reached(job_on(dir, name, Task::ReadAttachment), read).phase;
            &&& end matches Phase::Finished { end: Ok(value) } ==> value == OutcomeView::Bytes(
                Some(bytes),
            )
            &&& end is Finished && is_faultless(read) && real_on(
                later[0],
                root_of(dir),
            ).is_prefix_of(real_on(later[0], target_of(dir, name))) ==> end == done(
                Outcome::Bytes(Some(bytes)),
            )
        }),
{
    let target = target_of(dir, name);
    let save = job_on(dir, name, Task::Save { bytes, stamp });
    a_save_replaces_a_link(real_on, dir, name, bytes, stamp, written, disks);
    if escapes(components(utf8(name))) {
        refused_among_links(real_on, save, written, disks);
    }
    reached_is_fetching_among_links(
        real_on,
        job_on(dir, name, Task::ReadAttachment),
        read,
        later,
        root_of(dir),
        target,
        bytes,
    );
}

proof fn refused_among_links(
    real_on: RealOn,
    job: JobView,
    replies: Seq<Reply>,
    disks: Seq<LinkedDisk>,
)
    requires
        job.phase matches Phase::Finished { end: Err(_) },
        is_history_among_links(real_on, job, replies, disks),
    ensures
        replies.len() == 0,
    decreases replies.len(),
{
    if replies.len() > 0 {
        refused_among_links(real_on, job, replies.drop_last(), disks.drop_last());
    }
}

} // verus!
