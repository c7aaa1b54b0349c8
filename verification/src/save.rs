//! Saving a file so that a crash never leaves half of it: the content goes to a staging file
//! beside the target, which is then renamed over the target.

use vstd::prelude::*;

use crate::fsio::{outcome, Fault, FsRequest, IoFault, OsFault, OsRequest, Request};
use crate::path::{parent_of, FsPath, Path};
use crate::resolve::{staging_of, tmp_sibling, utf8, WRITE_TMP_SUFFIX};

verus! {

/// How far a save has come.
pub enum Saving<P, B, S> {
    /// The content is to be written to the staging file.
    Stage { target: P, staging: P, bytes: B },
    /// The staging file is to be renamed over the target.
    Publish { target: P, staging: P },
    /// The rename failed: the staging file is to be removed.
    Discard { staging: P, fault: IoFault<S> },
}

/// What one answer leads to.
pub enum SaveStep<P, B, S> {
    More(Saving<P, B, S>),
    Saved,
    Failed(IoFault<S>),
}

/// A save in contracts.
pub type SavingView = Saving<Path, Seq<u8>, Seq<char>>;

/// A step in contracts.
pub type SaveStepView = SaveStep<Path, Seq<u8>, Seq<char>>;

impl View for Saving<FsPath, Vec<u8>, String> {
    type V = SavingView;

    open spec fn view(&self) -> SavingView {
        match self {
            Saving::Stage { target, staging, bytes } => Saving::Stage {
                target: target@,
                staging: staging@,
                bytes: bytes@,
            },
            Saving::Publish { target, staging } => Saving::Publish {
                target: target@,
                staging: staging@,
            },
            Saving::Discard { staging, fault } => Saving::Discard {
                staging: staging@,
                fault: fault@,
            },
        }
    }
}

impl View for SaveStep<FsPath, Vec<u8>, String> {
    type V = SaveStepView;

    open spec fn view(&self) -> SaveStepView {
        match self {
            SaveStep::More(next) => SaveStep::More(next@),
            SaveStep::Saved => SaveStep::Saved,
            SaveStep::Failed(fault) => SaveStep::Failed(fault@),
        }
    }
}

/// The save of `bytes` to `target`, at its beginning.
pub open spec fn saving(target: Path, bytes: Seq<u8>) -> SavingView {
    Saving::Stage { target, staging: staging_of(target), bytes }
}

/// The operation that comes next.
pub open spec fn save_request(s: SavingView) -> Request {
    match s {
        Saving::Stage { staging, bytes, .. } => FsRequest::WriteFile(staging, bytes),
        Saving::Publish { target, staging } => FsRequest::Rename(staging, target),
        Saving::Discard { staging, .. } => FsRequest::RemoveFile(staging),
    }
}

/// What an answer leads to. A failed rename is what the save reports, whatever comes of removing
/// the staging file.
pub open spec fn save_next(s: SavingView, answer: Result<(), Fault>) -> SaveStepView {
    match s {
        Saving::Stage { target, staging, .. } => match answer {
            Ok(_) => SaveStep::More(Saving::Publish { target, staging }),
            Err(fault) => SaveStep::Failed(fault),
        },
        Saving::Publish { staging, .. } => match answer {
            Ok(_) => SaveStep::Saved,
            Err(fault) => SaveStep::More(Saving::Discard { staging, fault }),
        },
        Saving::Discard { fault, .. } => SaveStep::Failed(fault),
    }
}

/// Begins to save `bytes` to `path`.
pub fn write_atomic(path: FsPath, bytes: Vec<u8>) -> (res: Saving<FsPath, Vec<u8>, String>)
    ensures
        res@ == saving(path@, bytes@),
{
    let staging = tmp_sibling(&path);
    Saving::Stage { target: path, staging, bytes }
}

impl Saving<FsPath, Vec<u8>, String> {
    /// The operation that comes next.
    pub fn request(&self) -> (res: OsRequest)
        ensures
            res@ == save_request(self@),
    {
        match self {
            Saving::Stage { staging, bytes, .. } => FsRequest::WriteFile(
                staging.clone(),
                vstd::slice::slice_to_vec(bytes.as_slice()),
            ),
            Saving::Publish { target, staging } => FsRequest::Rename(
                staging.clone(),
                target.clone(),
            ),
            Saving::Discard { staging, .. } => FsRequest::RemoveFile(staging.clone()),
        }
    }

    /// Goes on with the answer.
    pub fn step(self, answer: Result<(), OsFault>) -> (res: SaveStep<FsPath, Vec<u8>, String>)
        ensures
            res@ == save_next(self@, outcome(answer)),
    {
        match self {
            Saving::Stage { target, staging, .. } => match answer {
                Ok(_) => SaveStep::More(Saving::Publish { target, staging }),
                Err(fault) => SaveStep::Failed(fault),
            },
            Saving::Publish { staging, .. } => match answer {
                Ok(_) => SaveStep::Saved,
                Err(fault) => SaveStep::More(Saving::Discard { staging, fault }),
            },
            Saving::Discard { fault, .. } => SaveStep::Failed(fault),
        }
    }
}

/// The staging file is never the target itself, so writing it leaves the target alone.
pub proof fn staging_is_beside_the_target(target: Path)
    ensures
        staging_of(target) != target,
        parent_of(target) matches Some(folder) ==> parent_of(staging_of(target)) == Some(folder),
{
    let staging = staging_of(target);
    vstd::string::is_ascii_spec_bytes(WRITE_TMP_SUFFIX);
    reveal_strlit(".gn-tmp");
    suffix_is_not_empty();
    assert(staging.drop_last() =~= match parent_of(target) {
        Some(folder) => folder,
        None => Seq::empty(),
    });
    if staging == target {
        assert(target.last() == staging.last());
        assert(target.last() is Name);
    }
}

proof fn suffix_is_not_empty()
    ensures
        utf8(WRITE_TMP_SUFFIX@).len() > 0,
{
    reveal_strlit(".gn-tmp");
    vstd::utf8::encode_utf8_first_scalar(WRITE_TMP_SUFFIX@);
}

} // verus!
