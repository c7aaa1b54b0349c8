//! Moving a file: a rename, or a copy and a removal where the rename fails (across devices). Two
//! names of one file are only renamed: a copy of a file onto itself would empty it.

use vstd::prelude::*;

use crate::fsio::{outcome, Fault, FsRequest, IoFault, OsFault, OsRequest, Request};
use crate::path::{FsPath, Path};

verus! {

/// How far a move has come.
pub enum Moving<P, S> {
    /// `may_copy` says whether the file may be copied where the rename fails.
    Rename { from: P, to: P, may_copy: bool },
    /// The rename failed with this fault: the file is to be copied.
    Copy { from: P, to: P, fault: IoFault<S> },
    /// The file is copied: its source is to be removed.
    Drop { from: P },
}

/// What one answer leads to.
pub enum MoveStep<P, S> {
    More(Moving<P, S>),
    Moved,
    Failed(IoFault<S>),
}

/// A move in contracts.
pub type MovingView = Moving<Path, Seq<char>>;

/// A step in contracts.
pub type MoveStepView = MoveStep<Path, Seq<char>>;

impl View for Moving<FsPath, String> {
    type V = MovingView;

    open spec fn view(&self) -> MovingView {
        match self {
            Moving::Rename { from, to, may_copy } => Moving::Rename {
                from: from@,
                to: to@,
                may_copy: *may_copy,
            },
            Moving::Copy { from, to, fault } => Moving::Copy {
                from: from@,
                to: to@,
                fault: fault@,
            },
            Moving::Drop { from } => Moving::Drop { from: from@ },
        }
    }
}

impl View for MoveStep<FsPath, String> {
    type V = MoveStepView;

    open spec fn view(&self) -> MoveStepView {
        match self {
            MoveStep::More(next) => MoveStep::More(next@),
            MoveStep::Moved => MoveStep::Moved,
            MoveStep::Failed(fault) => MoveStep::Failed(fault@),
        }
    }
}

/// The operation that comes next.
pub open spec fn move_request(m: MovingView) -> Request {
    match m {
        Moving::Rename { from, to, .. } => FsRequest::Rename(from, to),
        Moving::Copy { from, to, .. } => FsRequest::Copy(from, to),
        Moving::Drop { from } => FsRequest::RemoveFile(from),
    }
}

/// What an answer leads to. Where both the rename and the copy fail, the rename's fault is
/// reported; once the copy is there, the move has succeeded.
pub open spec fn move_next(m: MovingView, answer: Result<(), Fault>) -> MoveStepView {
    match m {
        Moving::Rename { from, to, may_copy } => match answer {
            Ok(_) => MoveStep::Moved,
            Err(fault) => if may_copy {
                MoveStep::More(Moving::Copy { from, to, fault })
            } else {
                MoveStep::Failed(fault)
            },
        },
        Moving::Copy { from, fault, .. } => match answer {
            Ok(_) => MoveStep::More(Moving::Drop { from }),
            Err(_) => MoveStep::Failed(fault),
        },
        Moving::Drop { .. } => MoveStep::Moved,
    }
}

/// Begins to move `from` to `to`; `may_copy` says that they are not the same file.
pub fn rename_or_copy(from: FsPath, to: FsPath, may_copy: bool) -> (res: Moving<FsPath, String>)
    ensures
        res@ == (MovingView::Rename { from: from@, to: to@, may_copy }),
{
    Moving::Rename { from, to, may_copy }
}

impl Moving<FsPath, String> {
    /// The operation that comes next.
    pub fn request(&self) -> (res: OsRequest)
        ensures
            res@ == move_request(self@),
    {
        match self {
            Moving::Rename { from, to, .. } => FsRequest::Rename(from.clone(), to.clone()),
            Moving::Copy { from, to, .. } => FsRequest::Copy(from.clone(), to.clone()),
            Moving::Drop { from } => FsRequest::RemoveFile(from.clone()),
        }
    }

    /// Goes on with the answer.
    pub fn step(self, answer: Result<(), OsFault>) -> (res: MoveStep<FsPath, String>)
        ensures
            res@ == move_next(self@, outcome(answer)),
    {
        match self {
            Moving::Rename { from, to, may_copy } => match answer {
                Ok(_) => MoveStep::Moved,
                Err(fault) => if may_copy {
                    MoveStep::More(Moving::Copy { from, to, fault })
                } else {
                    MoveStep::Failed(fault)
                },
            },
            Moving::Copy { from, fault, .. } => match answer {
                Ok(_) => MoveStep::More(Moving::Drop { from }),
                Err(_) => MoveStep::Failed(fault),
            },
            Moving::Drop { .. } => MoveStep::Moved,
        }
    }
}

} // verus!
