//! The commands on the picked folder.
//!
//! `dir` is the absolute path of the folder; a `name`, `path`, `sub`, `from` or `to` is a path
//! below it, with `/` between the names. Each command gives a job; asking the job for its next
//! operation, performing it and handing the answer back, until none is left, carries it out.

use vstd::prelude::*;

use crate::job::{attachments_of, begin, begun, root_of, Flat, Job, JobView, Phase, Task};
use crate::names::ATTACHMENTS_DIR;
use crate::path::FsPath;
use crate::resolve::utf8;
use crate::walk::{collect_folders, collect_md, walking, WalkKind};

verus! {

/// A command that begins with a caller-supplied path, in contracts.
pub open spec fn job_on(
    dir: Seq<char>,
    name: Seq<char>,
    task: Task<crate::path::Path, Seq<u8>, Seq<char>>,
) -> JobView {
    JobView { dir, phase: begun(dir, name, task) }
}

/// A command that begins with a walk, in contracts.
pub open spec fn walk_job(dir: Seq<char>, kind: WalkKind) -> JobView {
    JobView { dir, phase: Phase::Walk { at: walking(kind, root_of(dir)) } }
}

fn start(dir: String, name: &str, task: Task<FsPath, Vec<u8>, String>) -> (res: Job)
    ensures
        res@ == job_on(dir@, name@, task@),
{
    let phase = begin(dir.as_str(), name, task);
    Job { dir, phase }
}

/// Every note, at any depth, with its last change and the head of its body.
pub fn notes_list(dir: String) -> (res: Job)
    ensures
        res@ == walk_job(dir@, WalkKind::Heads),
{
    let at = collect_md(dir.as_str(), false);
    Job { dir, phase: Phase::Walk { at } }
}

/// Every note, at any depth, with its whole content: what the full-text search is fed with.
pub fn notes_read_all(dir: String) -> (res: Job)
    ensures
        res@ == walk_job(dir@, WalkKind::Full),
{
    let at = collect_md(dir.as_str(), true);
    Job { dir, phase: Phase::Walk { at } }
}

/// Every folder, at any depth, those kept alive by a marker included.
pub fn notes_list_folders(dir: String) -> (res: Job)
    ensures
        res@ == walk_job(dir@, WalkKind::Folders),
{
    let at = collect_folders(dir.as_str());
    Job { dir, phase: Phase::Walk { at } }
}

/// The notes directly in the folder `sub`, by their ids and without their bodies. It backs the
/// view of the trash, which the walks stay out of. A missing folder has no notes.
pub fn notes_list_dir(dir: String, sub: String) -> (res: Job)
    ensures
        res@ == job_on(dir@, sub@, Task::ListNotes { sub: sub@ }),
{
    let name = sub.clone();
    start(dir, name.as_str(), Task::ListNotes { sub })
}

/// Removes `path` and all that is in it; a missing path is fine. The folder is first renamed to a
/// place beside it where nothing stands, with a name that begins with a dot, so that it goes as a
/// whole: where that fails everything stays, and once it is done nothing is left at `path`.
pub fn notes_remove_dir_all(dir: String, path: String) -> (res: Job)
    ensures
        res@ == job_on(dir@, path@, Task::RemoveTree),
{
    start(dir, path.as_str(), Task::RemoveTree)
}

/// Reads one note or the metadata sidecar; nothing where it does not exist.
pub fn notes_read_opt(dir: String, name: String) -> (res: Job)
    ensures
        res@ == job_on(dir@, name@, Task::ReadNote { name: name@ }),
{
    let path = name.clone();
    start(dir, path.as_str(), Task::ReadNote { name })
}

/// Saves a note, making the folders that are missing, and gives its new last change.
pub fn notes_write(dir: String, name: String, content: String) -> (res: Job)
    ensures
        res@ == job_on(dir@, name@, Task::Save { bytes: utf8(content@), stamp: true }),
{
    let bytes: Vec<u8> = vstd::slice::slice_to_vec(content.as_str().as_bytes());
    start(dir, name.as_str(), Task::Save { bytes, stamp: true })
}

/// Renames a note, possibly into another folder, and gives its last change. Never overwrites
/// another file. Removes the folders that are left empty.
pub fn notes_rename(dir: String, from: String, to: String) -> (res: Job)
    ensures
        res@ == job_on(dir@, from@, Task::RenameFrom { to: to@ }),
{
    start(dir, from.as_str(), Task::RenameFrom { to })
}

/// Removes a note, and the folders that are left empty.
pub fn notes_remove(dir: String, name: String) -> (res: Job)
    ensures
        res@ == job_on(dir@, name@, Task::RemoveNote),
{
    start(dir, name.as_str(), Task::RemoveNote)
}

/// Saves an attachment, making the folders that are missing.
pub fn attachment_write(dir: String, path: String, bytes: Vec<u8>) -> (res: Job)
    ensures
        res@ == job_on(dir@, path@, Task::Save { bytes: bytes@, stamp: false }),
{
    start(dir, path.as_str(), Task::Save { bytes, stamp: false })
}

/// Reads an attachment; nothing where it does not exist.
pub fn attachment_read(dir: String, name: String) -> (res: Job)
    ensures
        res@ == job_on(dir@, name@, Task::ReadAttachment),
{
    start(dir, name.as_str(), Task::ReadAttachment)
}

/// The files in the attachments folder; none where there is no such folder.
pub fn attachment_list(dir: String) -> (res: Job)
    ensures
        res@ == (JobView {
            dir: dir@,
            phase: Phase::ReadFlat { folder: attachments_of(dir@), what: Flat::Attachments },
        }),
{
    let root = FsPath::parse(dir.as_str().as_bytes());
    let folder = root.join(vstd::slice::slice_to_vec(ATTACHMENTS_DIR.as_bytes()));
    Job { dir, phase: Phase::ReadFlat { folder, what: Flat::Attachments } }
}

/// Removes an attachment; a missing one is fine.
pub fn attachment_remove(dir: String, name: String) -> (res: Job)
    ensures
        res@ == job_on(dir@, name@, Task::RemoveAttachment),
{
    start(dir, name.as_str(), Task::RemoveAttachment)
}

/// Creates a folder and keeps it alive with a marker.
pub fn notes_create_folder(dir: String, path: String) -> (res: Job)
    ensures
        res@ == job_on(dir@, path@, Task::CreateFolder),
{
    start(dir, path.as_str(), Task::CreateFolder)
}

/// Removes a folder that holds nothing but its marker; a missing folder is fine.
pub fn notes_remove_dir(dir: String, path: String) -> (res: Job)
    ensures
        res@ == job_on(dir@, path@, Task::RemoveFolder { path: path@ }),
{
    let name = path.clone();
    start(dir, name.as_str(), Task::RemoveFolder { path })
}

/// Moves a folder and all that is in it. Never onto something that exists. Removes the folders
/// that are left empty.
pub fn notes_move_dir(dir: String, from: String, to: String) -> (res: Job)
    ensures
        res@ == job_on(dir@, from@, Task::MoveFrom { to: to@ }),
{
    start(dir, from.as_str(), Task::MoveFrom { to })
}

/// Whether there is an entry of this name.
pub fn notes_exists(dir: String, name: String) -> (res: Job)
    ensures
        res@ == job_on(dir@, name@, Task::Exists),
{
    start(dir, name.as_str(), Task::Exists)
}

/// The last change of a note; nothing where it does not exist.
pub fn notes_stat(dir: String, name: String) -> (res: Job)
    ensures
        res@ == job_on(dir@, name@, Task::Stat),
{
    start(dir, name.as_str(), Task::Stat)
}

/// Shows an entry in the file manager; one that is missing is reported.
pub fn reveal_path(dir: String, name: String) -> (res: Job)
    ensures
        res@ == job_on(dir@, name@, Task::Reveal { name: name@ }),
{
    let path = name.clone();
    start(dir, path.as_str(), Task::Reveal { name })
}

} // verus!
