//! What is asked of the file system, and what it answers.
//!
//! No code here touches a disk. A command is a value that says which operation comes next, takes
//! the answer to it and goes on from there; the program around the library performs the
//! operations. `B`, `P` and `S` stand for how bytes, paths and texts are held: `Vec<u8>`,
//! `FsPath` and `String`, or their views in contracts.

use vstd::prelude::*;

use crate::path::{FsPath, Path};

verus! {

/// The bit of a file's flags which says that its content is evicted to the cloud.
pub const SF_DATALESS: u32 = 0x4000_0000;

/// A failed operation.
pub struct IoFault<S> {
    /// Whether it failed because there is no such entry.
    pub not_found: bool,
    /// The operating system's own words.
    pub text: S,
}

/// A failed operation in contracts.
pub type Fault = IoFault<Seq<char>>;

/// A failed operation, as the operating system reports it.
pub type OsFault = IoFault<String>;

/// What an entry of a folder is, symbolic links not followed.
#[derive(Clone, Copy, PartialEq, Eq, Structural)]
pub enum FileKind {
    File,
    Dir,
    Symlink,
    Other,
}

/// What is known of an entry without reading its content.
#[derive(Clone, Copy, PartialEq, Eq, Structural)]
pub struct FileMeta {
    pub is_file: bool,
    pub size: u64,
    /// The last change in milliseconds since the epoch, where that can be told.
    pub modified: Option<u128>,
    /// The flags of the file, 0 on systems that have none.
    pub flags: u32,
}

/// One entry of a folder.
pub struct DirEntry<B, S> {
    pub name: B,
    pub kind: Result<FileKind, IoFault<S>>,
    pub meta: Result<FileMeta, IoFault<S>>,
}

/// One entry of a folder in contracts.
pub type Entry = DirEntry<Seq<u8>, Seq<char>>;

/// One entry of a folder, as the operating system reports it.
pub type OsEntry = DirEntry<Vec<u8>, String>;

/// The content of a folder in contracts; reading any one entry may fail.
pub type Listing = Seq<Result<Entry, Fault>>;

/// The content of a folder, in the order in which the operating system reports it.
pub type OsListing = Vec<Result<OsEntry, OsFault>>;

/// An operation.
pub enum FsRequest<P, B> {
    /// The real path of an entry, every symbolic link resolved.
    Canonicalize(P),
    /// Where the entry itself leads, if it is a symbolic link.
    ReadLink(P),
    /// What is known of an entry, symbolic links followed.
    Metadata(P),
    /// Whether an entry is there, symbolic links followed.
    Exists(P),
    /// The entries of a folder.
    ReadDir(P),
    /// The content of a file.
    ReadFile(P),
    /// At most so many bytes from the beginning of a file.
    ReadHead(P, u64),
    /// Makes the bytes the content of the file, creating it where it is missing.
    WriteFile(P, B),
    /// Creates the folder and those above it that are missing.
    CreateDirAll(P),
    /// Renames the first to the second.
    Rename(P, P),
    /// Copies the first to the second.
    Copy(P, P),
    RemoveFile(P),
    /// Removes an empty folder.
    RemoveDir(P),
    /// Removes a folder and all that is in it.
    RemoveDirAll(P),
    /// Shows the entry in the file manager.
    Reveal(P),
}

/// An operation in contracts.
pub type Request = FsRequest<Path, Seq<u8>>;

/// An operation for the operating system.
pub type OsRequest = FsRequest<FsPath, Vec<u8>>;

/// An answer in contracts.
pub enum Reply {
    Canonical(Result<Path, Fault>),
    Link(Result<Option<Path>, Fault>),
    Meta(Result<FileMeta, Fault>),
    Exists(bool),
    Entries(Result<Listing, Fault>),
    Bytes(Result<Seq<u8>, Fault>),
    Done(Result<(), Fault>),
    Launched(Result<bool, Fault>),
}

/// The answer to an operation.
pub enum OsReply {
    /// To `Canonicalize`.
    Canonical(Result<FsPath, OsFault>),
    /// To `ReadLink`: the path that the link holds, or none where the entry is no link.
    Link(Result<Option<FsPath>, OsFault>),
    /// To `Metadata`.
    Meta(Result<FileMeta, OsFault>),
    /// To `Exists`.
    Exists(bool),
    /// To `ReadDir`.
    Entries(Result<OsListing, OsFault>),
    /// To `ReadFile` and `ReadHead`.
    Bytes(Result<Vec<u8>, OsFault>),
    /// To every operation that gives nothing back.
    Done(Result<(), OsFault>),
    /// To `Reveal`: whether the file manager did it.
    Launched(Result<bool, OsFault>),
}

impl View for IoFault<String> {
    type V = Fault;

    open spec fn view(&self) -> Fault {
        IoFault { not_found: self.not_found, text: self.text@ }
    }
}

/// A result in contracts, its fault by its view.
pub open spec fn outcome<T>(res: Result<T, OsFault>) -> Result<T, Fault> {
    match res {
        Ok(value) => Ok(value),
        Err(fault) => Err(fault@),
    }
}

/// A result in contracts, both sides by their views.
pub open spec fn outcome_view<T: View>(res: Result<T, OsFault>) -> Result<T::V, Fault> {
    match res {
        Ok(value) => Ok(value@),
        Err(fault) => Err(fault@),
    }
}

impl View for DirEntry<Vec<u8>, String> {
    type V = Entry;

    open spec fn view(&self) -> Entry {
        DirEntry { name: self.name@, kind: outcome(self.kind), meta: outcome(self.meta) }
    }
}

/// The content of a folder in contracts.
pub open spec fn listing(list: Seq<Result<OsEntry, OsFault>>) -> Listing {
    Seq::new(list.len(), |i: int| outcome_view(list[i]))
}

/// What reading a folder gave, in contracts.
pub open spec fn folder_content(res: Result<OsListing, OsFault>) -> Result<Listing, Fault> {
    match res {
        Ok(list) => Ok(listing(list@)),
        Err(fault) => Err(fault@),
    }
}

impl View for FsRequest<FsPath, Vec<u8>> {
    type V = Request;

    open spec fn view(&self) -> Request {
        match self {
            FsRequest::Canonicalize(p) => FsRequest::Canonicalize(p@),
            FsRequest::ReadLink(p) => FsRequest::ReadLink(p@),
            FsRequest::Metadata(p) => FsRequest::Metadata(p@),
            FsRequest::Exists(p) => FsRequest::Exists(p@),
            FsRequest::ReadDir(p) => FsRequest::ReadDir(p@),
            FsRequest::ReadFile(p) => FsRequest::ReadFile(p@),
            FsRequest::ReadHead(p, n) => FsRequest::ReadHead(p@, *n),
            FsRequest::WriteFile(p, bytes) => FsRequest::WriteFile(p@, bytes@),
            FsRequest::CreateDirAll(p) => FsRequest::CreateDirAll(p@),
            FsRequest::Rename(a, b) => FsRequest::Rename(a@, b@),
            FsRequest::Copy(a, b) => FsRequest::Copy(a@, b@),
            FsRequest::RemoveFile(p) => FsRequest::RemoveFile(p@),
            FsRequest::RemoveDir(p) => FsRequest::RemoveDir(p@),
            FsRequest::RemoveDirAll(p) => FsRequest::RemoveDirAll(p@),
            FsRequest::Reveal(p) => FsRequest::Reveal(p@),
        }
    }
}

impl View for OsReply {
    type V = Reply;

    open spec fn view(&self) -> Reply {
        match self {
            OsReply::Canonical(res) => Reply::Canonical(outcome_view(*res)),
            OsReply::Link(res) => Reply::Link(link_view(*res)),
            OsReply::Meta(res) => Reply::Meta(outcome(*res)),
            OsReply::Exists(there) => Reply::Exists(*there),
            OsReply::Entries(res) => Reply::Entries(folder_content(*res)),
            OsReply::Bytes(res) => Reply::Bytes(outcome_view(*res)),
            OsReply::Done(res) => Reply::Done(outcome(*res)),
            OsReply::Launched(res) => Reply::Launched(outcome(*res)),
        }
    }
}

/// Where a link leads, in contracts.
pub open spec fn link_view(res: Result<Option<FsPath>, OsFault>) -> Result<Option<Path>, Fault> {
    match res {
        Ok(Some(to)) => Ok(Some(to@)),
        Ok(None) => Ok(None),
        Err(fault) => Err(fault@),
    }
}

/// Whether `reply` is an answer to `request`.
pub open spec fn answers(request: Request, reply: Reply) -> bool {
    match request {
        FsRequest::Canonicalize(_) => reply is Canonical,
        FsRequest::ReadLink(_) => reply is Link,
        FsRequest::Metadata(_) => reply is Meta,
        FsRequest::Exists(_) => reply is Exists,
        FsRequest::ReadDir(_) => reply is Entries,
        FsRequest::ReadFile(_) | FsRequest::ReadHead(_, _) => reply is Bytes,
        FsRequest::Reveal(_) => reply is Launched,
        _ => reply is Done,
    }
}

/// Whether `reply` is an answer to `request`.
pub fn is_answer(request: &OsRequest, reply: &OsReply) -> (res: bool)
    ensures
        res == answers(request@, reply@),
{
    match (request, reply) {
        (FsRequest::Canonicalize(_), OsReply::Canonical(_)) => true,
        (FsRequest::ReadLink(_), OsReply::Link(_)) => true,
        (FsRequest::Metadata(_), OsReply::Meta(_)) => true,
        (FsRequest::Exists(_), OsReply::Exists(_)) => true,
        (FsRequest::ReadDir(_), OsReply::Entries(_)) => true,
        (FsRequest::ReadFile(_), OsReply::Bytes(_)) => true,
        (FsRequest::ReadHead(_, _), OsReply::Bytes(_)) => true,
        (FsRequest::Reveal(_), OsReply::Launched(_)) => true,
        (FsRequest::WriteFile(_, _), OsReply::Done(_)) => true,
        (FsRequest::CreateDirAll(_), OsReply::Done(_)) => true,
        (FsRequest::Rename(_, _), OsReply::Done(_)) => true,
        (FsRequest::Copy(_, _), OsReply::Done(_)) => true,
        (FsRequest::RemoveFile(_), OsReply::Done(_)) => true,
        (FsRequest::RemoveDir(_), OsReply::Done(_)) => true,
        (FsRequest::RemoveDirAll(_), OsReply::Done(_)) => true,
        _ => false,
    }
}

/// What a fault is reported as: the operating system's own words.
pub fn stringify(err: OsFault) -> (res: String)
    ensures
        res@ == err@.text,
{
    err.text
}

/// The last change of a file in milliseconds since the epoch; 0 where that cannot be told.
pub open spec fn modified_of(meta: FileMeta) -> u128 {
    match meta.modified {
        Some(ms) => ms,
        None => 0,
    }
}

/// The last change of a file in milliseconds since the epoch; 0 where that cannot be told.
pub fn modified_ms(meta: &FileMeta) -> (res: u128)
    ensures
        res == modified_of(*meta),
{
    match meta.modified {
        Some(ms) => ms,
        None => 0,
    }
}

/// Whether a file's content is evicted to the cloud. Reading such a file blocks until it is
/// downloaded, so the walks list it without its content.
pub open spec fn is_evicted(meta: FileMeta) -> bool {
    meta.flags & SF_DATALESS != 0
}

/// Whether a file's content is evicted to the cloud.
pub fn is_dataless(meta: &FileMeta) -> (res: bool)
    ensures
        res == is_evicted(*meta),
{
    meta.flags & SF_DATALESS != 0
}

} // verus!
