//! Commands on the picked folder, as values that ask for one file system operation at a time.
//!
//! Every caller-supplied path goes through the confinement before anything else is done with it.

use vstd::prelude::*;

use crate::confine::{confine_to_root, confine_request, confining, judge, ConfineStep, Confinement};
use crate::fsio::{
    answers, folder_content, link_view, modified_ms, modified_of, outcome, outcome_view, stringify, Fault,
    FileMeta, FsRequest, Listing, OsFault, OsReply, OsRequest, Reply, Request,
};
use crate::listing::{
    attachments_in, check_removable, list_attachments, list_notes, notes_in, removable, views,
    AttachmentEntry, AttachmentView, FullView, HeadView, NoteFull, NoteHead,
};
use crate::names::{ATTACHMENTS_DIR, FOLDER_MARKER};
use crate::path::{components, parent_of, FsPath, Part, Path};
use crate::prune::{prune_empty_ancestors, prune_next, prune_request, pruning, Pruning};
use crate::relocate::{move_next, move_request, rename_or_copy, MoveStep, Moving};
use crate::resolve::{
    aside, aside_of, escapes, names_an_entry, names_something, refusal, refuse, utf8,
};
use crate::save::{save_next, save_request, saving, write_atomic, SaveStep, Saving};
use crate::text::{number_after, quoted, quoting, text_from_utf8};
use crate::walk::{
    walk_next, walk_request, Found, FoundView, Walk, WalkKind, WalkStep, WalkStepView, WalkView,
};

verus! {

/// What a command gives back. `N`, `F`, `A`, `B` and `S` stand for how lists of heads, of notes
/// and of attachments, bytes and texts are held.
pub enum Outcome<N, F, A, L, B, S> {
    Unit,
    Heads(N),
    Notes(F),
    Note(Option<NoteFull<S>>),
    /// The last change of a file.
    Stamp(u128),
    /// The last change of a file that may be missing.
    MaybeStamp(Option<u128>),
    Bytes(Option<B>),
    Attachments(A),
    Folders(L),
    Flag(bool),
}

/// What a command gives back, in contracts.
pub type OutcomeView = Outcome<
    Seq<HeadView>,
    Seq<FullView>,
    Seq<AttachmentView>,
    Seq<Seq<char>>,
    Seq<u8>,
    Seq<char>,
>;

/// What a command gives back.
pub type OsOutcome = Outcome<
    Vec<NoteHead<String>>,
    Vec<NoteFull<String>>,
    Vec<AttachmentEntry<String>>,
    Vec<String>,
    Vec<u8>,
    String,
>;

impl View for Outcome<
    Vec<NoteHead<String>>,
    Vec<NoteFull<String>>,
    Vec<AttachmentEntry<String>>,
    Vec<String>,
    Vec<u8>,
    String,
> {
    type V = OutcomeView;

    open spec fn view(&self) -> OutcomeView {
        match self {
            Outcome::Unit => Outcome::Unit,
            Outcome::Heads(list) => Outcome::Heads(views(list@)),
            Outcome::Notes(list) => Outcome::Notes(views(list@)),
            Outcome::Note(None) => Outcome::Note(None),
            Outcome::Note(Some(note)) => Outcome::Note(Some(note@)),
            Outcome::Stamp(ms) => Outcome::Stamp(*ms),
            Outcome::MaybeStamp(ms) => Outcome::MaybeStamp(*ms),
            Outcome::Bytes(None) => Outcome::Bytes(None),
            Outcome::Bytes(Some(bytes)) => Outcome::Bytes(Some(bytes@)),
            Outcome::Attachments(list) => Outcome::Attachments(views(list@)),
            Outcome::Folders(list) => Outcome::Folders(views(list@)),
            Outcome::Flag(b) => Outcome::Flag(*b),
        }
    }
}

/// How a command ends, in contracts.
pub type EndView = Result<OutcomeView, Seq<char>>;

/// How a command ends: with what it gives back, or with a message.
pub type OsEnd = Result<OsOutcome, String>;

/// How a command ends, in contracts.
pub open spec fn end_view(end: OsEnd) -> EndView {
    match end {
        Ok(value) => Ok(value@),
        Err(message) => Err(message@),
    }
}

/// What is to be done with a path once it is known to stay inside the picked folder.
pub enum Task<P, B, S> {
    ListNotes { sub: S },
    RemoveTree,
    ReadNote { name: S },
    /// Save the bytes there; `stamp` says whether the last change is given back.
    Save { bytes: B, stamp: bool },
    /// The path is the source of a rename to `to`.
    RenameFrom { to: S },
    /// The path is where `from` is renamed to.
    RenameTo { from: P, to: S },
    RemoveNote,
    ReadAttachment,
    RemoveAttachment,
    CreateFolder,
    RemoveFolder { path: S },
    /// The path is the folder that is moved to `to`.
    MoveFrom { to: S },
    /// The path is where the folder `from` is moved to.
    MoveTo { from: P, to: S },
    Exists,
    Stat,
    Reveal { name: S },
}

/// What the content of a single folder is read for.
pub enum Flat<S> {
    Notes { sub: S },
    Attachments,
    Removal { path: S },
    /// The folder is to be removed with all that is in it; that it is one is all that matters.
    Tree,
}

/// What the metadata of a file is read for.
pub enum StatUse<S> {
    /// Its last change; the file is there.
    Stamp,
    /// Its last change, if the file is there.
    MaybeStamp,
    /// The file is the note `name`, and is read next.
    Note { name: S },
}

/// What is done once a folder is there.
pub enum AfterFolder<P, B> {
    Save { target: P, bytes: B, stamp: bool },
    /// `same` says that the two are one file.
    Rename { from: P, to: P, same: bool },
    Move { from: P, to: P },
}

/// What it is asked for whether a file is there.
pub enum ExistsUse<P, S> {
    Answer,
    Reveal { name: S },
    RenameFrom { from: P, to: S },
    MoveFrom { from: P, to: S },
}

/// How far a command has come.
#[allow(inconsistent_fields)]
pub enum Phase<P, B, S, W, E> {
    Resolve { at: Confinement<P, B>, task: Task<P, B, S> },
    ReadFlat { folder: P, what: Flat<S> },
    DropMarker { folder: P },
    DropFolder { folder: P },
    /// A folder is to be removed with all that is in it: whether it is a link, which is simply
    /// removed, is looked up.
    LookTree { target: P },
    DropTree { target: P },
    /// A place beside the folder that is not taken is looked for: the one with this number next.
    PickAside { target: P, number: u32 },
    /// The folder is renamed to that place, so that it goes as a whole.
    SetAside { target: P, number: u32 },
    /// What was renamed is removed.
    DropAside { target: P, number: u32 },
    RemoveNote { target: P },
    RemoveAttachment { target: P },
    Stat { target: P, why: StatUse<S> },
    ReadNote { target: P, name: S, modified_ms: u128 },
    ReadAttachment { target: P },
    MakeFolder { folder: P, then_do: AfterFolder<P, B> },
    Save { at: Saving<P, B, S>, target: P, stamp: bool },
    Exists { target: P, why: ExistsUse<P, S> },
    /// Whether `from` and `target` are one file: the real path of `from` is looked up.
    SameFrom { from: P, target: P, to: S },
    /// The real path of `target` is looked up.
    SameTo { from: P, target: P, to: S, canon_from: Option<P> },
    Rename { at: Moving<P, S>, from: P, to: P },
    Move { from: P, to: P },
    /// The folders left empty are removed; then the last change of `stamp` is given back, if any.
    Prune { at: Pruning<P>, stamp: Option<P> },
    Reveal { target: P, name: S },
    Walk { at: W },
    Finished { end: E },
}

/// A phase in contracts.
pub type PhaseView = Phase<Path, Seq<u8>, Seq<char>, WalkView, EndView>;

/// A phase.
pub type OsPhase = Phase<FsPath, Vec<u8>, String, Walk, OsEnd>;

/// A command in contracts.
pub struct JobView {
    pub dir: Seq<char>,
    pub phase: PhaseView,
}

/// A command under way on the folder `dir`.
pub struct Job {
    pub dir: String,
    pub phase: OsPhase,
}

/// A path in contracts, if there is one.
pub open spec fn maybe_path(p: Option<FsPath>) -> Option<Path> {
    match p {
        Some(path) => Some(path@),
        None => None,
    }
}

impl View for Task<FsPath, Vec<u8>, String> {
    type V = Task<Path, Seq<u8>, Seq<char>>;

    open spec fn view(&self) -> Task<Path, Seq<u8>, Seq<char>> {
        match self {
            Task::ListNotes { sub } => Task::ListNotes { sub: sub@ },
            Task::RemoveTree => Task::RemoveTree,
            Task::ReadNote { name } => Task::ReadNote { name: name@ },
            Task::Save { bytes, stamp } => Task::Save { bytes: bytes@, stamp: *stamp },
            Task::RenameFrom { to } => Task::RenameFrom { to: to@ },
            Task::RenameTo { from, to } => Task::RenameTo { from: from@, to: to@ },
            Task::RemoveNote => Task::RemoveNote,
            Task::ReadAttachment => Task::ReadAttachment,
            Task::RemoveAttachment => Task::RemoveAttachment,
            Task::CreateFolder => Task::CreateFolder,
            Task::RemoveFolder { path } => Task::RemoveFolder { path: path@ },
            Task::MoveFrom { to } => Task::MoveFrom { to: to@ },
            Task::MoveTo { from, to } => Task::MoveTo { from: from@, to: to@ },
            Task::Exists => Task::Exists,
            Task::Stat => Task::Stat,
            Task::Reveal { name } => Task::Reveal { name: name@ },
        }
    }
}

impl View for Flat<String> {
    type V = Flat<Seq<char>>;

    open spec fn view(&self) -> Flat<Seq<char>> {
        match self {
            Flat::Notes { sub } => Flat::Notes { sub: sub@ },
            Flat::Attachments => Flat::Attachments,
            Flat::Removal { path } => Flat::Removal { path: path@ },
            Flat::Tree => Flat::Tree,
        }
    }
}

impl View for StatUse<String> {
    type V = StatUse<Seq<char>>;

    open spec fn view(&self) -> StatUse<Seq<char>> {
        match self {
            StatUse::Stamp => StatUse::Stamp,
            StatUse::MaybeStamp => StatUse::MaybeStamp,
            StatUse::Note { name } => StatUse::Note { name: name@ },
        }
    }
}

impl View for AfterFolder<FsPath, Vec<u8>> {
    type V = AfterFolder<Path, Seq<u8>>;

    open spec fn view(&self) -> AfterFolder<Path, Seq<u8>> {
        match self {
            AfterFolder::Save { target, bytes, stamp } => AfterFolder::Save {
                target: target@,
                bytes: bytes@,
                stamp: *stamp,
            },
            AfterFolder::Rename { from, to, same } => AfterFolder::Rename {
                from: from@,
                to: to@,
                same: *same,
            },
            AfterFolder::Move { from, to } => AfterFolder::Move { from: from@, to: to@ },
        }
    }
}

impl View for ExistsUse<FsPath, String> {
    type V = ExistsUse<Path, Seq<char>>;

    open spec fn view(&self) -> ExistsUse<Path, Seq<char>> {
        match self {
            ExistsUse::Answer => ExistsUse::Answer,
            ExistsUse::Reveal { name } => ExistsUse::Reveal { name: name@ },
            ExistsUse::RenameFrom { from, to } => ExistsUse::RenameFrom { from: from@, to: to@ },
            ExistsUse::MoveFrom { from, to } => ExistsUse::MoveFrom { from: from@, to: to@ },
        }
    }
}

impl View for Phase<FsPath, Vec<u8>, String, Walk, OsEnd> {
    type V = PhaseView;

    open spec fn view(&self) -> PhaseView {
        match self {
            Phase::Resolve { at, task } => Phase::Resolve { at: at@, task: task@ },
            Phase::ReadFlat { folder, what } => Phase::ReadFlat { folder: folder@, what: what@ },
            Phase::DropMarker { folder } => Phase::DropMarker { folder: folder@ },
            Phase::DropFolder { folder } => Phase::DropFolder { folder: folder@ },
            Phase::LookTree { target } => Phase::LookTree { target: target@ },
            Phase::DropTree { target } => Phase::DropTree { target: target@ },
            Phase::PickAside { target, number } => Phase::PickAside {
                target: target@,
                number: *number,
            },
            Phase::SetAside { target, number } => Phase::SetAside {
                target: target@,
                number: *number,
            },
            Phase::DropAside { target, number } => Phase::DropAside {
                target: target@,
                number: *number,
            },
            Phase::RemoveNote { target } => Phase::RemoveNote { target: target@ },
            Phase::RemoveAttachment { target } => Phase::RemoveAttachment { target: target@ },
            Phase::Stat { target, why } => Phase::Stat { target: target@, why: why@ },
            Phase::ReadNote { target, name, modified_ms } => Phase::ReadNote {
                target: target@,
                name: name@,
                modified_ms: *modified_ms,
            },
            Phase::ReadAttachment { target } => Phase::ReadAttachment { target: target@ },
            Phase::MakeFolder { folder, then_do } => Phase::MakeFolder {
                folder: folder@,
                then_do: then_do@,
            },
            Phase::Save { at, target, stamp } => Phase::Save {
                at: at@,
                target: target@,
                stamp: *stamp,
            },
            Phase::Exists { target, why } => Phase::Exists { target: target@, why: why@ },
            Phase::SameFrom { from, target, to } => Phase::SameFrom {
                from: from@,
                target: target@,
                to: to@,
            },
            Phase::SameTo { from, target, to, canon_from } => Phase::SameTo {
                from: from@,
                target: target@,
                to: to@,
                canon_from: maybe_path(*canon_from),
            },
            Phase::Rename { at, from, to } => Phase::Rename { at: at@, from: from@, to: to@ },
            Phase::Move { from, to } => Phase::Move { from: from@, to: to@ },
            Phase::Prune { at, stamp } => Phase::Prune { at: at@, stamp: maybe_path(*stamp) },
            Phase::Reveal { target, name } => Phase::Reveal { target: target@, name: name@ },
            Phase::Walk { at } => Phase::Walk { at: at@ },
            Phase::Finished { end } => Phase::Finished { end: end_view(*end) },
        }
    }
}

impl View for Job {
    type V = JobView;

    open spec fn view(&self) -> JobView {
        JobView { dir: self.dir@, phase: self.phase@ }
    }
}

/// The path of the picked folder.
pub open spec fn root_of(dir: Seq<char>) -> Path {
    components(utf8(dir))
}

/// The end of a command that succeeds.
pub open spec fn done(value: OutcomeView) -> PhaseView {
    Phase::Finished { end: Ok(value) }
}

/// The end of a command that fails.
pub open spec fn failed(message: Seq<char>) -> PhaseView {
    Phase::Finished { end: Err(message) }
}

/// The message for a destination that is taken.
pub open spec fn already_exists(to: Seq<char>) -> Seq<char> {
    quoting(Seq::empty(), to, " already exists"@)
}

/// The message for an entry that is gone.
pub open spec fn no_longer_exists(name: Seq<char>) -> Seq<char> {
    quoting(Seq::empty(), name, " no longer exists"@)
}

/// The message for a note whose bytes are no text.
pub open spec fn not_utf8(name: Seq<char>) -> Seq<char> {
    quoting(Seq::empty(), name, " is not valid UTF-8 text"@)
}

/// The message for a file manager that did not show an entry.
pub open spec fn could_not_reveal(name: Seq<char>) -> Seq<char> {
    quoting("Finder could not reveal "@, name, Seq::empty())
}

/// The marker file of a folder.
pub open spec fn marker_in(folder: Path) -> Path {
    folder.push(Part::Name(utf8(FOLDER_MARKER@)))
}

/// The attachments folder.
pub open spec fn attachments_of(dir: Seq<char>) -> Path {
    root_of(dir).push(Part::Name(utf8(ATTACHMENTS_DIR@)))
}

/// Whether a file is to be saved at a path that names none: the picked folder itself is no file, and
/// what a save to it would go through lies outside of it.
pub open spec fn is_nameless<P, B, S>(name: Seq<char>, task: Task<P, B, S>) -> bool {
    task is Save && !names_something(name)
}

/// A task on the caller-supplied path `name`: the path is resolved first. A file that is to be saved
/// has to have a name.
pub open spec fn begun(
    dir: Seq<char>,
    name: Seq<char>,
    task: Task<Path, Seq<u8>, Seq<char>>,
) -> PhaseView {
    if escapes(components(utf8(name))) || is_nameless(name, task) {
        failed(refusal(name))
    } else {
        Phase::Resolve { at: confining(dir, name), task }
    }
}

/// What comes once the folder is there.
pub open spec fn folder_ready(then_do: AfterFolder<Path, Seq<u8>>) -> PhaseView {
    match then_do {
        AfterFolder::Save { target, bytes, stamp } => Phase::Save {
            at: saving(target, bytes),
            target,
            stamp,
        },
        AfterFolder::Rename { from, to, same } => Phase::Rename {
            at: Moving::Rename { from, to, may_copy: !same },
            from,
            to,
        },
        AfterFolder::Move { from, to } => Phase::Move { from, to },
    }
}

/// Makes the folder that is to hold `target`, and goes on.
pub open spec fn with_parent(target: Path, then_do: AfterFolder<Path, Seq<u8>>) -> PhaseView {
    match parent_of(target) {
        Some(folder) => Phase::MakeFolder { folder, then_do },
        None => folder_ready(then_do),
    }
}

/// Makes the folder that is to hold `target`, and goes on. What holds the picked folder is not
/// touched.
pub open spec fn with_room(
    dir: Seq<char>,
    target: Path,
    then_do: AfterFolder<Path, Seq<u8>>,
) -> PhaseView {
    if target.len() > root_of(dir).len() {
        with_parent(target, then_do)
    } else {
        folder_ready(then_do)
    }
}

/// What comes once no folder is left to prune.
pub open spec fn pruned(stamp: Option<Path>) -> PhaseView {
    match stamp {
        Some(target) => Phase::Stat { target, why: StatUse::Stamp },
        None => done(Outcome::Unit),
    }
}

/// Removes the folders that `gone` has left empty by leaving, and goes on.
pub open spec fn prune_after(dir: Seq<char>, gone: Path, stamp: Option<Path>) -> PhaseView {
    match parent_of(gone) {
        Some(folder) => match pruning(root_of(dir), folder) {
            Some(at) => Phase::Prune { at, stamp },
            None => pruned(stamp),
        },
        None => pruned(stamp),
    }
}

/// What is done with a path that stays inside.
pub open spec fn resolved(
    dir: Seq<char>,
    task: Task<Path, Seq<u8>, Seq<char>>,
    target: Path,
) -> PhaseView {
    match task {
        Task::ListNotes { sub } => Phase::ReadFlat { folder: target, what: Flat::Notes { sub } },
        // The picked folder itself has nothing beside it that it could be renamed to.
        Task::RemoveTree => if target.len() > root_of(dir).len() {
            Phase::LookTree { target }
        } else {
            Phase::DropTree { target }
        },
        Task::ReadNote { name } => Phase::Stat { target, why: StatUse::Note { name } },
        Task::Save { bytes, stamp } => with_parent(
            target,
            AfterFolder::Save { target, bytes, stamp },
        ),
        Task::RenameFrom { to } => begun(dir, to, Task::RenameTo { from: target, to }),
        Task::RenameTo { from, to } => Phase::Exists {
            target,
            why: ExistsUse::RenameFrom { from, to },
        },
        Task::RemoveNote => Phase::RemoveNote { target },
        Task::ReadAttachment => Phase::ReadAttachment { target },
        Task::RemoveAttachment => Phase::RemoveAttachment { target },
        Task::CreateFolder => Phase::MakeFolder {
            folder: target,
            then_do: AfterFolder::Save {
                target: marker_in(target),
                bytes: Seq::empty(),
                stamp: false,
            },
        },
        Task::RemoveFolder { path } => Phase::ReadFlat {
            folder: target,
            what: Flat::Removal { path },
        },
        Task::MoveFrom { to } => begun(dir, to, Task::MoveTo { from: target, to }),
        Task::MoveTo { from, to } => Phase::Exists { target, why: ExistsUse::MoveFrom { from, to } },
        Task::Exists => Phase::Exists { target, why: ExistsUse::Answer },
        Task::Stat => Phase::Stat { target, why: StatUse::MaybeStamp },
        Task::Reveal { name } => Phase::Exists { target, why: ExistsUse::Reveal { name } },
    }
}

/// The operation that comes next; none once the command has ended.
pub open spec fn phase_request(phase: PhaseView) -> Option<Request> {
    match phase {
        Phase::Resolve { at, .. } => Some(confine_request(at)),
        Phase::ReadFlat { folder, .. } => Some(Request::ReadDir(folder)),
        Phase::DropMarker { folder } => Some(Request::RemoveFile(marker_in(folder))),
        Phase::DropFolder { folder } => Some(Request::RemoveDir(folder)),
        Phase::LookTree { target } => Some(Request::ReadLink(target)),
        Phase::DropTree { target } => Some(Request::RemoveDirAll(target)),
        Phase::PickAside { target, number } => Some(Request::ReadLink(aside_of(target, number))),
        Phase::SetAside { target, number } => Some(
            Request::Rename(target, aside_of(target, number)),
        ),
        Phase::DropAside { target, number } => Some(
            Request::RemoveDirAll(aside_of(target, number)),
        ),
        Phase::RemoveNote { target } => Some(Request::RemoveFile(target)),
        Phase::RemoveAttachment { target } => Some(Request::RemoveFile(target)),
        Phase::Stat { target, .. } => Some(Request::Metadata(target)),
        Phase::ReadNote { target, .. } => Some(Request::ReadFile(target)),
        Phase::ReadAttachment { target } => Some(Request::ReadFile(target)),
        Phase::MakeFolder { folder, .. } => Some(Request::CreateDirAll(folder)),
        Phase::Save { at, .. } => Some(save_request(at)),
        Phase::Exists { target, .. } => Some(Request::Exists(target)),
        Phase::SameFrom { from, .. } => Some(Request::Canonicalize(from)),
        Phase::SameTo { target, .. } => Some(Request::Canonicalize(target)),
        Phase::Rename { at, .. } => Some(move_request(at)),
        Phase::Move { from, to } => Some(Request::Rename(from, to)),
        Phase::Prune { at, .. } => Some(prune_request(at)),
        Phase::Reveal { target, .. } => Some(Request::Reveal(target)),
        Phase::Walk { at } => Some(walk_request(at)),
        Phase::Finished { .. } => None,
    }
}

/// What the content of a single folder leads to. A folder that is missing has nothing to list and
/// needs no removal.
pub open spec fn flat_read(
    folder: Path,
    what: Flat<Seq<char>>,
    content: Result<Listing, Fault>,
) -> PhaseView {
    match (what, content) {
        (Flat::Notes { .. }, Err(fault)) => if fault.not_found {
            done(Outcome::Heads(Seq::empty()))
        } else {
            failed(fault.text)
        },
        (Flat::Attachments, Err(fault)) => if fault.not_found {
            done(Outcome::Attachments(Seq::empty()))
        } else {
            failed(fault.text)
        },
        (Flat::Removal { .. }, Err(fault)) => if fault.not_found {
            done(Outcome::Unit)
        } else {
            failed(fault.text)
        },
        (Flat::Tree, Err(fault)) => if fault.not_found {
            done(Outcome::Unit)
        } else {
            failed(fault.text)
        },
        (Flat::Tree, Ok(_)) => Phase::PickAside { target: folder, number: 0 },
        (Flat::Notes { sub }, Ok(list)) => match notes_in(sub, list) {
            Ok(heads) => done(Outcome::Heads(heads)),
            Err(message) => failed(message),
        },
        (Flat::Attachments, Ok(list)) => match attachments_in(list) {
            Ok(items) => done(Outcome::Attachments(items)),
            Err(message) => failed(message),
        },
        (Flat::Removal { path }, Ok(list)) => match removable(path, list) {
            Ok(_) => Phase::DropMarker { folder },
            Err(message) => failed(message),
        },
    }
}

/// What the metadata of a file leads to.
pub open spec fn stat_read(
    target: Path,
    why: StatUse<Seq<char>>,
    answer: Result<FileMeta, Fault>,
) -> PhaseView {
    match (why, answer) {
        (StatUse::Stamp, Ok(meta)) => done(Outcome::Stamp(modified_of(meta))),
        (StatUse::MaybeStamp, Ok(meta)) => done(Outcome::MaybeStamp(Some(modified_of(meta)))),
        (StatUse::Note { name }, Ok(meta)) => Phase::ReadNote {
            target,
            name,
            modified_ms: modified_of(meta),
        },
        (StatUse::Stamp, Err(fault)) => failed(fault.text),
        (StatUse::MaybeStamp, Err(fault)) => if fault.not_found {
            done(Outcome::MaybeStamp(None))
        } else {
            failed(fault.text)
        },
        (StatUse::Note { .. }, Err(fault)) => if fault.not_found {
            done(Outcome::Note(None))
        } else {
            failed(fault.text)
        },
    }
}

/// What the bytes of a note lead to: its text, if they are UTF-8. Anything else would come back
/// changed on the next save, so it is refused.
pub open spec fn note_read(
    name: Seq<char>,
    modified_ms: u128,
    answer: Result<Seq<u8>, Fault>,
) -> PhaseView {
    match answer {
        Ok(bytes) => if vstd::utf8::valid_utf8(bytes) {
            done(
                Outcome::Note(
                    Some(
                        NoteFull {
                            name,
                            modified_ms,
                            content: vstd::utf8::decode_utf8(bytes),
                        },
                    ),
                ),
            )
        } else {
            failed(not_utf8(name))
        },
        Err(fault) => failed(fault.text),
    }
}

/// What it leads to whether a folder that is to be removed is a link.
pub open spec fn tree_seen(target: Path, answer: Result<Option<Path>, Fault>) -> PhaseView {
    match answer {
        Ok(Some(_)) => Phase::DropTree { target },
        Ok(None) => Phase::ReadFlat { folder: target, what: Flat::Tree },
        Err(fault) => if fault.not_found {
            done(Outcome::Unit)
        } else {
            failed(fault.text)
        },
    }
}

/// What it leads to what stands at the place with this number beside a folder that is to be removed:
/// only where nothing does the folder is renamed to it.
pub open spec fn place_seen(
    target: Path,
    number: u32,
    answer: Result<Option<Path>, Fault>,
) -> PhaseView {
    match answer {
        Ok(_) => Phase::PickAside { target, number: number_after(number) },
        Err(fault) => if fault.not_found {
            Phase::SetAside { target, number }
        } else {
            failed(fault.text)
        },
    }
}

/// What it leads to whether `target` is there.
pub open spec fn exists_read(
    dir: Seq<char>,
    target: Path,
    why: ExistsUse<Path, Seq<char>>,
    there: bool,
) -> PhaseView {
    match why {
        ExistsUse::Answer => done(Outcome::Flag(there)),
        ExistsUse::Reveal { name } => if there {
            Phase::Reveal { target, name }
        } else {
            failed(no_longer_exists(name))
        },
        ExistsUse::RenameFrom { from, to } => if there {
            Phase::SameFrom { from, target, to }
        } else {
            with_room(dir, target, AfterFolder::Rename { from, to: target, same: false })
        },
        ExistsUse::MoveFrom { from, to } => if there {
            failed(already_exists(to))
        } else {
            with_room(dir, target, AfterFolder::Move { from, to: target })
        },
    }
}

/// The finds of a walk for notes as heads.
pub open spec fn as_heads(found: Seq<FoundView>) -> Seq<HeadView> {
    found.map_values(
        |f: FoundView| NoteHead { name: f.rel, modified_ms: f.modified_ms, head: f.body },
    )
}

/// The finds of a walk for notes as notes.
pub open spec fn as_notes(found: Seq<FoundView>) -> Seq<FullView> {
    found.map_values(
        |f: FoundView| NoteFull { name: f.rel, modified_ms: f.modified_ms, content: f.body },
    )
}

/// The finds of a walk for folders.
pub open spec fn as_folders(found: Seq<FoundView>) -> Seq<Seq<char>> {
    found.map_values(|f: FoundView| f.rel)
}

/// What a walk of this kind gives back.
pub open spec fn walk_outcome(kind: WalkKind, found: Seq<FoundView>) -> OutcomeView {
    match kind {
        WalkKind::Heads => Outcome::Heads(as_heads(found)),
        WalkKind::Full => Outcome::Notes(as_notes(found)),
        WalkKind::Folders => Outcome::Folders(as_folders(found)),
    }
}

/// What the end of an operation leads to, in the phases in which it gives nothing else.
pub open spec fn done_read(
    dir: Seq<char>,
    phase: PhaseView,
    answer: Result<(), Fault>,
) -> PhaseView {
    match (phase, answer) {
        // Whether the marker was there does not matter.
        (Phase::DropMarker { folder }, _) => Phase::DropFolder { folder },
        (Phase::DropFolder { .. }, Ok(_)) => done(Outcome::Unit),
        (Phase::DropTree { .. }, Ok(_)) => done(Outcome::Unit),
        (Phase::DropTree { .. }, Err(fault)) if fault.not_found => done(Outcome::Unit),
        (Phase::SetAside { target, number }, Ok(_)) => Phase::DropAside { target, number },
        (Phase::SetAside { .. }, Err(fault)) if fault.not_found => done(Outcome::Unit),
        // The folder is gone, whatever is left of it in its other place.
        (Phase::DropAside { .. }, _) => done(Outcome::Unit),
        (Phase::RemoveNote { target }, Ok(_)) => prune_after(dir, target, None),
        (Phase::RemoveAttachment { .. }, Ok(_)) => done(Outcome::Unit),
        (Phase::RemoveAttachment { .. }, Err(fault)) if fault.not_found => done(Outcome::Unit),
        (Phase::MakeFolder { then_do, .. }, Ok(_)) => folder_ready(then_do),
        (Phase::Save { at, target, stamp }, _) => match save_next(at, answer) {
            SaveStep::More(next) => Phase::Save { at: next, target, stamp },
            SaveStep::Saved => if stamp {
                Phase::Stat { target, why: StatUse::Stamp }
            } else {
                done(Outcome::Unit)
            },
            SaveStep::Failed(fault) => failed(fault.text),
        },
        (Phase::Rename { at, from, to }, _) => match move_next(at, answer) {
            MoveStep::More(next) => Phase::Rename { at: next, from, to },
            MoveStep::Moved => prune_after(dir, from, Some(to)),
            MoveStep::Failed(fault) => failed(fault.text),
        },
        (Phase::Move { from, .. }, Ok(_)) => prune_after(dir, from, None),
        (_, Err(fault)) => failed(fault.text),
        _ => phase,
    }
}

/// What an answer leads to.
pub open spec fn phase_next(dir: Seq<char>, phase: PhaseView, reply: Reply) -> PhaseView {
    match (phase, reply) {
        (Phase::Resolve { at, task }, _) => match judge(at, reply) {
            ConfineStep::More(next) => Phase::Resolve { at: next, task },
            ConfineStep::Inside => resolved(dir, task, at.target),
            ConfineStep::Refused(message) => failed(message),
        },
        (Phase::ReadFlat { folder, what }, Reply::Entries(content)) => flat_read(
            folder,
            what,
            content,
        ),
        (Phase::LookTree { target }, Reply::Link(answer)) => tree_seen(target, answer),
        (Phase::PickAside { target, number }, Reply::Link(answer)) => place_seen(
            target,
            number,
            answer,
        ),
        (Phase::Stat { target, why }, Reply::Meta(answer)) => stat_read(target, why, answer),
        (Phase::ReadNote { name, modified_ms, .. }, Reply::Bytes(answer)) => note_read(
            name,
            modified_ms,
            answer,
        ),
        (Phase::ReadAttachment { .. }, Reply::Bytes(Ok(bytes))) => done(
            Outcome::Bytes(Some(bytes)),
        ),
        (Phase::ReadAttachment { .. }, Reply::Bytes(Err(fault))) => if fault.not_found {
            done(Outcome::Bytes(None))
        } else {
            failed(fault.text)
        },
        (Phase::Exists { target, why }, Reply::Exists(there)) => exists_read(
            dir,
            target,
            why,
            there,
        ),
        (Phase::SameFrom { from, target, to }, Reply::Canonical(answer)) => Phase::SameTo {
            from,
            target,
            to,
            canon_from: match answer {
                Ok(found) => Some(found),
                Err(_) => None,
            },
        },
        (Phase::SameTo { from, target, to, canon_from }, Reply::Canonical(answer)) => if answer
            is Ok && canon_from == Some(answer->Ok_0) {
            with_room(dir, target, AfterFolder::Rename { from, to: target, same: true })
        } else {
            failed(already_exists(to))
        },
        (Phase::Prune { at, stamp }, _) => match prune_next(at, reply) {
            Some(next) => Phase::Prune { at: next, stamp },
            None => pruned(stamp),
        },
        (Phase::Reveal { name, .. }, Reply::Launched(answer)) => match answer {
            Ok(shown) => if shown {
                done(Outcome::Unit)
            } else {
                failed(could_not_reveal(name))
            },
            Err(fault) => failed(fault.text),
        },
        (Phase::Walk { at }, _) => match walk_next(at, reply) {
            WalkStepView::More(next) => Phase::Walk { at: next },
            WalkStepView::Done(found) => done(walk_outcome(at.kind, found)),
            WalkStepView::Failed(message) => failed(message),
        },
        (_, Reply::Done(answer)) => done_read(dir, phase, answer),
        _ => phase,
    }
}

/// Where a command stands after an answer.
pub open spec fn job_next(job: JobView, reply: Reply) -> JobView {
    JobView { dir: job.dir, phase: phase_next(job.dir, job.phase, reply) }
}

fn succeed(value: OsOutcome) -> (res: OsPhase)
    ensures
        res@ == done(value@),
{
    Phase::Finished { end: Ok(value) }
}

fn fail(message: String) -> (res: OsPhase)
    ensures
        res@ == failed(message@),
{
    Phase::Finished { end: Err(message) }
}

fn fail_on(fault: OsFault) -> (res: OsPhase)
    ensures
        res@ == failed(fault@.text),
{
    fail(stringify(fault))
}

fn says_of(name: &str, after: &str) -> (res: String)
    ensures
        res@ == quoting(Seq::empty(), name@, after@),
{
    proof {
        reveal_strlit("");
    }
    assert(""@ =~= Seq::<char>::empty());
    quoted("", name, after)
}

fn bytes_of(s: &str) -> (res: Vec<u8>)
    ensures
        res@ == utf8(s@),
{
    vstd::slice::slice_to_vec(s.as_bytes())
}

/// Begins a task on the caller-supplied path `name`.
pub fn begin(dir: &str, name: &str, task: Task<FsPath, Vec<u8>, String>) -> (res: OsPhase)
    ensures
        res@ == begun(dir@, name@, task@),
{
    let saves = match &task {
        Task::Save { .. } => true,
        _ => false,
    };
    if saves && !names_an_entry(name) {
        return fail(refuse(name));
    }
    match confine_to_root(dir, name) {
        Ok(at) => Phase::Resolve { at, task },
        Err(message) => fail(message),
    }
}

fn use_folder(then_do: AfterFolder<FsPath, Vec<u8>>) -> (res: OsPhase)
    ensures
        res@ == folder_ready(then_do@),
{
    match then_do {
        AfterFolder::Save { target, bytes, stamp } => {
            let at = write_atomic(target.clone(), bytes);
            Phase::Save { at, target, stamp }
        },
        AfterFolder::Rename { from, to, same } => {
            let at = rename_or_copy(from.clone(), to.clone(), !same);
            Phase::Rename { at, from, to }
        },
        AfterFolder::Move { from, to } => Phase::Move { from, to },
    }
}

fn make_parent(target: &FsPath, then_do: AfterFolder<FsPath, Vec<u8>>) -> (res: OsPhase)
    ensures
        res@ == with_parent(target@, then_do@),
{
    match target.parent() {
        Some(folder) => Phase::MakeFolder { folder, then_do },
        None => use_folder(then_do),
    }
}

fn make_room(dir: &str, target: &FsPath, then_do: AfterFolder<FsPath, Vec<u8>>) -> (res: OsPhase)
    ensures
        res@ == with_room(dir@, target@, then_do@),
{
    let root = FsPath::parse(dir.as_bytes());
    if target.parts.len() > root.parts.len() {
        make_parent(target, then_do)
    } else {
        use_folder(then_do)
    }
}

fn finish_prune(stamp: Option<FsPath>) -> (res: OsPhase)
    ensures
        res@ == pruned(maybe_path(stamp)),
{
    match stamp {
        Some(target) => Phase::Stat { target, why: StatUse::Stamp },
        None => succeed(Outcome::Unit),
    }
}

fn start_prune(dir: &str, gone: &FsPath, stamp: Option<FsPath>) -> (res: OsPhase)
    ensures
        res@ == prune_after(dir@, gone@, maybe_path(stamp)),
{
    let root = FsPath::parse(dir.as_bytes());
    match gone.parent() {
        Some(folder) => match prune_empty_ancestors(&root, folder) {
            Some(at) => Phase::Prune { at, stamp },
            None => finish_prune(stamp),
        },
        None => finish_prune(stamp),
    }
}

fn on_resolved(dir: &str, task: Task<FsPath, Vec<u8>, String>, target: FsPath) -> (res: OsPhase)
    ensures
        res@ == resolved(dir@, task@, target@),
{
    match task {
        Task::ListNotes { sub } => Phase::ReadFlat { folder: target, what: Flat::Notes { sub } },
        Task::RemoveTree => {
            let root = FsPath::parse(dir.as_bytes());
            if target.parts.len() > root.parts.len() {
                Phase::LookTree { target }
            } else {
                Phase::DropTree { target }
            }
        },
        Task::ReadNote { name } => Phase::Stat { target, why: StatUse::Note { name } },
        Task::Save { bytes, stamp } => {
            let goal = target.clone();
            make_parent(&target, AfterFolder::Save { target: goal, bytes, stamp })
        },
        Task::RenameFrom { to } => {
            let name = to.clone();
            begin(dir, name.as_str(), Task::RenameTo { from: target, to })
        },
        Task::RenameTo { from, to } => Phase::Exists {
            target,
            why: ExistsUse::RenameFrom { from, to },
        },
        Task::RemoveNote => Phase::RemoveNote { target },
        Task::ReadAttachment => Phase::ReadAttachment { target },
        Task::RemoveAttachment => Phase::RemoveAttachment { target },
        Task::CreateFolder => {
            let marker = target.join(bytes_of(FOLDER_MARKER));
            let bytes: Vec<u8> = Vec::new();
            Phase::MakeFolder {
                folder: target,
                then_do: AfterFolder::Save { target: marker, bytes, stamp: false },
            }
        },
        Task::RemoveFolder { path } => Phase::ReadFlat {
            folder: target,
            what: Flat::Removal { path },
        },
        Task::MoveFrom { to } => {
            let name = to.clone();
            begin(dir, name.as_str(), Task::MoveTo { from: target, to })
        },
        Task::MoveTo { from, to } => Phase::Exists { target, why: ExistsUse::MoveFrom { from, to } },
        Task::Exists => Phase::Exists { target, why: ExistsUse::Answer },
        Task::Stat => Phase::Stat { target, why: StatUse::MaybeStamp },
        Task::Reveal { name } => Phase::Exists { target, why: ExistsUse::Reveal { name } },
    }
}

fn on_flat(
    folder: FsPath,
    what: Flat<String>,
    content: Result<crate::fsio::OsListing, OsFault>,
) -> (res: OsPhase)
    ensures
        res@ == flat_read(folder@, what@, folder_content(content)),
{
    match content {
        Err(fault) => {
            if !fault.not_found {
                return fail_on(fault);
            }
            match what {
                Flat::Notes { .. } => {
                    let none: Vec<NoteHead<String>> = Vec::new();
                    assert(views(none@) =~= Seq::empty());
                    succeed(Outcome::Heads(none))
                },
                Flat::Attachments => {
                    let none: Vec<AttachmentEntry<String>> = Vec::new();
                    assert(views(none@) =~= Seq::empty());
                    succeed(Outcome::Attachments(none))
                },
                Flat::Removal { .. } => succeed(Outcome::Unit),
                Flat::Tree => succeed(Outcome::Unit),
            }
        },
        Ok(list) => match what {
            Flat::Notes { sub } => match list_notes(sub.as_str(), &list) {
                Ok(heads) => succeed(Outcome::Heads(heads)),
                Err(message) => fail(message),
            },
            Flat::Attachments => match list_attachments(&list) {
                Ok(items) => succeed(Outcome::Attachments(items)),
                Err(message) => fail(message),
            },
            Flat::Removal { path } => match check_removable(path.as_str(), &list) {
                Ok(_) => Phase::DropMarker { folder },
                Err(message) => fail(message),
            },
            Flat::Tree => Phase::PickAside { target: folder, number: 0 },
        },
    }
}

fn on_tree(target: FsPath, answer: Result<Option<FsPath>, OsFault>) -> (res: OsPhase)
    ensures
        res@ == tree_seen(target@, link_view(answer)),
{
    match answer {
        Ok(Some(_)) => Phase::DropTree { target },
        Ok(None) => Phase::ReadFlat { folder: target, what: Flat::Tree },
        Err(fault) => if fault.not_found {
            succeed(Outcome::Unit)
        } else {
            fail_on(fault)
        },
    }
}

fn on_place(target: FsPath, number: u32, answer: Result<Option<FsPath>, OsFault>) -> (res: OsPhase)
    ensures
        res@ == place_seen(target@, number, link_view(answer)),
{
    match answer {
        Ok(_) => Phase::PickAside { target, number: number.wrapping_add(1) },
        Err(fault) => if fault.not_found {
            Phase::SetAside { target, number }
        } else {
            fail_on(fault)
        },
    }
}

fn on_stat(target: FsPath, why: StatUse<String>, answer: Result<FileMeta, OsFault>) -> (res:
    OsPhase)
    ensures
        res@ == stat_read(target@, why@, outcome(answer)),
{
    match (why, answer) {
        (StatUse::Stamp, Ok(meta)) => succeed(Outcome::Stamp(modified_ms(&meta))),
        (StatUse::MaybeStamp, Ok(meta)) => succeed(Outcome::MaybeStamp(Some(modified_ms(&meta)))),
        (StatUse::Note { name }, Ok(meta)) => Phase::ReadNote {
            target,
            name,
            modified_ms: modified_ms(&meta),
        },
        (StatUse::Stamp, Err(fault)) => fail_on(fault),
        (StatUse::MaybeStamp, Err(fault)) => if fault.not_found {
            succeed(Outcome::MaybeStamp(None))
        } else {
            fail_on(fault)
        },
        (StatUse::Note { .. }, Err(fault)) => if fault.not_found {
            succeed(Outcome::Note(None))
        } else {
            fail_on(fault)
        },
    }
}

fn on_note(name: String, modified_ms: u128, answer: Result<Vec<u8>, OsFault>) -> (res: OsPhase)
    ensures
        res@ == note_read(name@, modified_ms, outcome_view(answer)),
{
    match answer {
        Ok(bytes) => match text_from_utf8(bytes) {
            Some(content) => succeed(Outcome::Note(Some(NoteFull { name, modified_ms, content }))),
            None => fail(says_of(name.as_str(), " is not valid UTF-8 text")),
        },
        Err(fault) => fail_on(fault),
    }
}

fn on_exists(dir: &str, target: FsPath, why: ExistsUse<FsPath, String>, there: bool) -> (res:
    OsPhase)
    ensures
        res@ == exists_read(dir@, target@, why@, there),
{
    match why {
        ExistsUse::Answer => succeed(Outcome::Flag(there)),
        ExistsUse::Reveal { name } => if there {
            Phase::Reveal { target, name }
        } else {
            fail(says_of(name.as_str(), " no longer exists"))
        },
        ExistsUse::RenameFrom { from, to } => if there {
            Phase::SameFrom { from, target, to }
        } else {
            let goal = target.clone();
            make_room(dir, &target, AfterFolder::Rename { from, to: goal, same: false })
        },
        ExistsUse::MoveFrom { from, to } => if there {
            fail(says_of(to.as_str(), " already exists"))
        } else {
            let goal = target.clone();
            make_room(dir, &target, AfterFolder::Move { from, to: goal })
        },
    }
}

/// Whether two real paths, as far as they could be found, are those of one file.
fn same_file(a: &Option<FsPath>, b: &Result<FsPath, OsFault>) -> (res: bool)
    ensures
        res == (outcome_view(*b) is Ok && maybe_path(*a) == Some(outcome_view(*b)->Ok_0)),
{
    match (a, b) {
        (Some(x), Ok(y)) => x.same(y),
        _ => false,
    }
}

fn heads_of(found: Vec<Found<String>>) -> (res: Vec<NoteHead<String>>)
    ensures
        views(res@) == as_heads(views(found@)),
{
    let mut out: Vec<NoteHead<String>> = Vec::new();
    let mut i: usize = 0;
    while i < found.len()
        invariant
            i <= found@.len(),
            out@.len() == i,
            forall|k: int|
                0 <= k < i ==> (#[trigger] out@[k])@ == as_heads(views(found@))[k],
        decreases found@.len() - i,
    {
        let f = &found[i];
        out.push(
            NoteHead { name: f.rel.clone(), modified_ms: f.modified_ms, head: f.body.clone() },
        );
        i = i + 1;
    }
    assert(views(out@) =~= as_heads(views(found@)));
    out
}

fn notes_of(found: Vec<Found<String>>) -> (res: Vec<NoteFull<String>>)
    ensures
        views(res@) == as_notes(views(found@)),
{
    let mut out: Vec<NoteFull<String>> = Vec::new();
    let mut i: usize = 0;
    while i < found.len()
        invariant
            i <= found@.len(),
            out@.len() == i,
            forall|k: int|
                0 <= k < i ==> (#[trigger] out@[k])@ == as_notes(views(found@))[k],
        decreases found@.len() - i,
    {
        let f = &found[i];
        out.push(
            NoteFull { name: f.rel.clone(), modified_ms: f.modified_ms, content: f.body.clone() },
        );
        i = i + 1;
    }
    assert(views(out@) =~= as_notes(views(found@)));
    out
}

fn folders_of(found: Vec<Found<String>>) -> (res: Vec<String>)
    ensures
        views(res@) == as_folders(views(found@)),
{
    let mut out: Vec<String> = Vec::new();
    let mut i: usize = 0;
    while i < found.len()
        invariant
            i <= found@.len(),
            out@.len() == i,
            forall|k: int|
                0 <= k < i ==> (#[trigger] out@[k])@ == as_folders(views(found@))[k],
        decreases found@.len() - i,
    {
        out.push(found[i].rel.clone());
        i = i + 1;
    }
    assert(views(out@) =~= as_folders(views(found@)));
    out
}

fn on_walk(at: Walk, reply: OsReply) -> (res: OsPhase)
    requires
        answers(walk_request(at@), reply@),
    ensures
        res@ == match walk_next(at@, reply@) {
            WalkStepView::More(next) => Phase::Walk { at: next },
            WalkStepView::Done(found) => done(walk_outcome(at@.kind, found)),
            WalkStepView::Failed(message) => failed(message),
        },
{
    let kind = at.kind;
    match at.step(reply) {
        WalkStep::More(next) => Phase::Walk { at: next },
        WalkStep::Done(found) => match kind {
            WalkKind::Heads => succeed(Outcome::Heads(heads_of(found))),
            WalkKind::Full => succeed(Outcome::Notes(notes_of(found))),
            WalkKind::Folders => succeed(Outcome::Folders(folders_of(found))),
        },
        WalkStep::Failed(message) => fail(message),
    }
}

fn on_done(dir: &str, phase: OsPhase, answer: Result<(), OsFault>) -> (res: OsPhase)
    requires
        phase_request(phase@) matches Some(request) && answers(request, Reply::Done(Ok(()))),
        !(phase@ is Prune),
        !(phase@ is Walk),
    ensures
        res@ == done_read(dir@, phase@, outcome(answer)),
{
    match phase {
        Phase::DropMarker { folder } => Phase::DropFolder { folder },
        Phase::Save { at, target, stamp } => match at.step(answer) {
            SaveStep::More(next) => Phase::Save { at: next, target, stamp },
            SaveStep::Saved => if stamp {
                Phase::Stat { target, why: StatUse::Stamp }
            } else {
                succeed(Outcome::Unit)
            },
            SaveStep::Failed(fault) => fail_on(fault),
        },
        Phase::Rename { at, from, to } => match at.step(answer) {
            MoveStep::More(next) => Phase::Rename { at: next, from, to },
            MoveStep::Moved => start_prune(dir, &from, Some(to)),
            MoveStep::Failed(fault) => fail_on(fault),
        },
        Phase::DropFolder { .. } => match answer {
            Ok(_) => succeed(Outcome::Unit),
            Err(fault) => fail_on(fault),
        },
        Phase::DropTree { .. } => match answer {
            Ok(_) => succeed(Outcome::Unit),
            Err(fault) => if fault.not_found {
                succeed(Outcome::Unit)
            } else {
                fail_on(fault)
            },
        },
        Phase::SetAside { target, number } => match answer {
            Ok(_) => Phase::DropAside { target, number },
            Err(fault) => if fault.not_found {
                succeed(Outcome::Unit)
            } else {
                fail_on(fault)
            },
        },
        Phase::DropAside { .. } => succeed(Outcome::Unit),
        Phase::RemoveAttachment { .. } => match answer {
            Ok(_) => succeed(Outcome::Unit),
            Err(fault) => if fault.not_found {
                succeed(Outcome::Unit)
            } else {
                fail_on(fault)
            },
        },
        Phase::RemoveNote { target } => match answer {
            Ok(_) => start_prune(dir, &target, None),
            Err(fault) => fail_on(fault),
        },
        Phase::MakeFolder { then_do, .. } => match answer {
            Ok(_) => use_folder(then_do),
            Err(fault) => fail_on(fault),
        },
        Phase::Move { from, .. } => match answer {
            Ok(_) => start_prune(dir, &from, None),
            Err(fault) => fail_on(fault),
        },
        other => other,
    }
}

impl Job {
    /// The operation that comes next; none once the command has ended.
    pub fn request(&self) -> (res: Option<OsRequest>)
        ensures
            match res {
                Some(request) => phase_request(self@.phase) == Some(request@),
                None => phase_request(self@.phase) is None,
            },
    {
        match &self.phase {
            Phase::Resolve { at, .. } => Some(at.request()),
            Phase::ReadFlat { folder, .. } => Some(FsRequest::ReadDir(folder.clone())),
            Phase::DropMarker { folder } => Some(
                FsRequest::RemoveFile(folder.join(bytes_of(FOLDER_MARKER))),
            ),
            Phase::DropFolder { folder } => Some(FsRequest::RemoveDir(folder.clone())),
            Phase::LookTree { target } => Some(FsRequest::ReadLink(target.clone())),
            Phase::DropTree { target } => Some(FsRequest::RemoveDirAll(target.clone())),
            Phase::PickAside { target, number } => Some(
                FsRequest::ReadLink(aside(target, *number)),
            ),
            Phase::SetAside { target, number } => Some(
                FsRequest::Rename(target.clone(), aside(target, *number)),
            ),
            Phase::DropAside { target, number } => Some(
                FsRequest::RemoveDirAll(aside(target, *number)),
            ),
            Phase::RemoveNote { target } => Some(FsRequest::RemoveFile(target.clone())),
            Phase::RemoveAttachment { target } => Some(FsRequest::RemoveFile(target.clone())),
            Phase::Stat { target, .. } => Some(FsRequest::Metadata(target.clone())),
            Phase::ReadNote { target, .. } => Some(FsRequest::ReadFile(target.clone())),
            Phase::ReadAttachment { target } => Some(FsRequest::ReadFile(target.clone())),
            Phase::MakeFolder { folder, .. } => Some(FsRequest::CreateDirAll(folder.clone())),
            Phase::Save { at, .. } => Some(at.request()),
            Phase::Exists { target, .. } => Some(FsRequest::Exists(target.clone())),
            Phase::SameFrom { from, .. } => Some(FsRequest::Canonicalize(from.clone())),
            Phase::SameTo { target, .. } => Some(FsRequest::Canonicalize(target.clone())),
            Phase::Rename { at, .. } => Some(at.request()),
            Phase::Move { from, to } => Some(FsRequest::Rename(from.clone(), to.clone())),
            Phase::Prune { at, .. } => Some(at.request()),
            Phase::Reveal { target, .. } => Some(FsRequest::Reveal(target.clone())),
            Phase::Walk { at } => Some(at.request()),
            Phase::Finished { .. } => None,
        }
    }

    /// Goes on with the answer to the operation that was asked for.
    pub fn resume(self, reply: OsReply) -> (res: Job)
        requires
            phase_request(self@.phase) matches Some(request) && answers(request, reply@),
        ensures
            res@ == job_next(self@, reply@),
    {
        let dir = self.dir;
        let phase = match (self.phase, reply) {
            (Phase::Resolve { at, task }, reply) => {
                let target = at.target.clone();
                match at.step(reply) {
                    ConfineStep::More(next) => Phase::Resolve { at: next, task },
                    ConfineStep::Inside => on_resolved(dir.as_str(), task, target),
                    ConfineStep::Refused(message) => fail(message),
                }
            },
            (Phase::ReadFlat { folder, what }, OsReply::Entries(content)) => on_flat(
                folder,
                what,
                content,
            ),
            (Phase::LookTree { target }, OsReply::Link(answer)) => on_tree(target, answer),
            (Phase::PickAside { target, number }, OsReply::Link(answer)) => on_place(
                target,
                number,
                answer,
            ),
            (Phase::Stat { target, why }, OsReply::Meta(answer)) => on_stat(target, why, answer),
            (Phase::ReadNote { name, modified_ms, .. }, OsReply::Bytes(answer)) => on_note(
                name,
                modified_ms,
                answer,
            ),
            (Phase::ReadAttachment { .. }, OsReply::Bytes(answer)) => match answer {
                Ok(bytes) => succeed(Outcome::Bytes(Some(bytes))),
                Err(fault) => if fault.not_found {
                    succeed(Outcome::Bytes(None))
                } else {
                    fail_on(fault)
                },
            },
            (Phase::Exists { target, why }, OsReply::Exists(there)) => on_exists(
                dir.as_str(),
                target,
                why,
                there,
            ),
            (Phase::SameFrom { from, target, to }, OsReply::Canonical(answer)) => {
                let canon_from = match answer {
                    Ok(found) => Some(found),
                    Err(_) => None,
                };
                Phase::SameTo { from, target, to, canon_from }
            },
            (Phase::SameTo { from, target, to, canon_from }, OsReply::Canonical(answer)) => {
                if same_file(&canon_from, &answer) {
                    let goal = target.clone();
                    make_room(
                        dir.as_str(),
                        &target,
                        AfterFolder::Rename { from, to: goal, same: true },
                    )
                } else {
                    fail(says_of(to.as_str(), " already exists"))
                }
            },
            (Phase::Prune { at, stamp }, reply) => match at.step(reply) {
                Some(next) => Phase::Prune { at: next, stamp },
                None => finish_prune(stamp),
            },
            (Phase::Reveal { name, .. }, OsReply::Launched(answer)) => match answer {
                Ok(shown) => if shown {
                    succeed(Outcome::Unit)
                } else {
                    proof {
                        reveal_strlit("");
                    }
                    assert(""@ =~= Seq::<char>::empty());
                    fail(quoted("Finder could not reveal ", name.as_str(), ""))
                },
                Err(fault) => fail_on(fault),
            },
            (Phase::Walk { at }, reply) => on_walk(at, reply),
            (phase, OsReply::Done(answer)) => on_done(dir.as_str(), phase, answer),
            (phase, _) => phase,
        };
        Job { dir, phase }
    }

    /// How the command ended, once it has.
    pub fn end(self) -> (res: Option<OsEnd>)
        ensures
            match res {
                Some(end) => self@.phase == (PhaseView::Finished { end: end_view(end) }),
                None => !(self@.phase is Finished),
            },
    {
        match self.phase {
            Phase::Finished { end } => Some(end),
            _ => None,
        }
    }
}

} // verus!
