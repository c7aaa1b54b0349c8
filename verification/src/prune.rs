//! Removing the folders that a removal or a move has left empty.

use vstd::prelude::*;

use crate::fsio::{
    answers, folder_content, listing, outcome_view, Entry, Fault, FsRequest, Listing, OsFault,
    OsListing, OsReply, OsRequest, Reply, Request,
};
use crate::names::{FOLDER_MARKER, METADATA_FILENAME};
use crate::path::{parent_of, FsPath, Path};
use crate::text::{same_text, shown, text_from_utf8_lossy};

verus! {

/// Whether an entry is worth nothing to a prune: the metadata sidecar, and nothing else. A note,
/// a marker, a folder and a staging file all keep their folder.
pub open spec fn is_sidecar(entry: Result<Entry, Fault>) -> bool {
    entry matches Ok(e) && shown(e.name) == METADATA_FILENAME@
}

/// Whether a folder holds nothing worth keeping, going by its content; one that cannot be read is
/// kept.
pub open spec fn holds_nothing(content: Result<Listing, Fault>) -> bool {
    content matches Ok(list) && holds_sidecars(list)
}

/// Whether all entries are worth nothing to a prune.
pub open spec fn holds_sidecars(list: Listing) -> bool {
    forall|i: int| 0 <= i < list.len() ==> is_sidecar(#[trigger] list[i])
}

/// Whether a prune that began below `root` goes on with `dir`.
pub open spec fn prune_reaches(root: Path, dir: Path) -> bool {
    dir != root && root.is_prefix_of(dir)
}

/// A prune that has come to the folder `dir`.
pub struct Pruning<P> {
    pub root: P,
    pub dir: P,
    /// Whether `dir` was found to hold nothing, and is to be removed.
    pub empty: bool,
}

/// A prune in contracts.
pub type PruningView = Pruning<Path>;

impl View for Pruning<FsPath> {
    type V = PruningView;

    open spec fn view(&self) -> PruningView {
        Pruning { root: self.root@, dir: self.dir@, empty: self.empty }
    }
}

/// A prune in contracts, where there is one.
pub open spec fn pruning_view(p: Option<Pruning<FsPath>>) -> Option<PruningView> {
    match p {
        Some(next) => Some(next@),
        None => None,
    }
}

/// The prune from `start` up toward `root`: none where `start` is not below `root`.
pub open spec fn pruning(root: Path, start: Path) -> Option<PruningView> {
    if prune_reaches(root, start) {
        Some(Pruning { root, dir: start, empty: false })
    } else {
        None
    }
}

/// The operation that comes next.
pub open spec fn prune_request(p: PruningView) -> Request {
    if p.empty {
        FsRequest::RemoveDir(p.dir)
    } else {
        FsRequest::ReadDir(p.dir)
    }
}

/// What an answer leads to: a folder that holds nothing is removed, and then the one above it is
/// looked at; anything else ends the prune.
pub open spec fn prune_next(p: PruningView, reply: Reply) -> Option<PruningView> {
    match reply {
        Reply::Entries(content) if !p.empty && holds_nothing(content) => Some(
            Pruning { empty: true, ..p },
        ),
        Reply::Done(Ok(_)) if p.empty => match parent_of(p.dir) {
            Some(up) => pruning(p.root, up),
            None => None,
        },
        _ => None,
    }
}

/// Whether a folder holds nothing worth keeping.
pub fn is_prunable(content: &Result<OsListing, OsFault>) -> (res: bool)
    ensures
        res == holds_nothing(folder_content(*content)),
{
    match content {
        Err(_) => false,
        Ok(list) => {
            let ghost all = listing(list@);
            let mut i: usize = 0;
            while i < list.len()
                invariant
                    i <= list@.len(),
                    all == listing(list@),
                    folder_content(*content) == Ok::<Listing, Fault>(all),
                    forall|k: int| 0 <= k < i ==> is_sidecar(#[trigger] all[k]),
                decreases list@.len() - i,
            {
                assert(all[i as int] == outcome_view(list@[i as int]));
                match &list[i] {
                    Err(_) => {
                        assert(!is_sidecar(all[i as int]));
                        assert(!holds_sidecars(all));
                        return false;
                    },
                    Ok(entry) => {
                        let name = text_from_utf8_lossy(&entry.name);
                        if !same_text(name.as_str(), METADATA_FILENAME) {
                            assert(!is_sidecar(all[i as int]));
                            return false;
                        }
                    },
                }
                i = i + 1;
            }
            true
        },
    }
}

/// Begins to remove the folders from `start` up toward `root` that hold nothing; `root` itself
/// stays.
pub fn prune_empty_ancestors(root: &FsPath, start: FsPath) -> (res: Option<Pruning<FsPath>>)
    ensures
        pruning_view(res) == pruning(root@, start@),
{
    if !start.same(root) && start.starts_with(root) {
        Some(Pruning { root: root.clone(), dir: start, empty: false })
    } else {
        None
    }
}

impl Pruning<FsPath> {
    /// The operation that comes next.
    pub fn request(&self) -> (res: OsRequest)
        ensures
            res@ == prune_request(self@),
    {
        if self.empty {
            FsRequest::RemoveDir(self.dir.clone())
        } else {
            FsRequest::ReadDir(self.dir.clone())
        }
    }

    /// Goes on with the answer; nothing is left to do once there is no next step.
    pub fn step(self, reply: OsReply) -> (res: Option<Pruning<FsPath>>)
        requires
            answers(prune_request(self@), reply@),
        ensures
            pruning_view(res) == prune_next(self@, reply@),
    {
        match reply {
            OsReply::Entries(content) => {
                if is_prunable(&content) {
                    Some(Pruning { root: self.root, dir: self.dir, empty: true })
                } else {
                    None
                }
            },
            OsReply::Done(Ok(_)) => match self.dir.parent() {
                Some(up) => prune_empty_ancestors(&self.root, up),
                None => None,
            },
            _ => None,
        }
    }
}

/// A prune only ever looks at and removes folders strictly below its root, and climbs by one
/// folder at a time; so it ends, and the root stays.
pub proof fn prune_stays_below_its_root(p: PruningView, reply: Reply)
    requires
        prune_reaches(p.root, p.dir),
    ensures
        prune_next(p, reply) matches Some(next) ==> {
            &&& next.root == p.root
            &&& prune_reaches(next.root, next.dir)
            &&& next.dir == p.dir || (p.empty && next.dir == p.dir.drop_last())
        },
{
}

/// A folder is removed only right after its content was read and found to hold nothing but the
/// metadata sidecar.
pub proof fn prune_removes_only_what_it_found_empty(p: PruningView, reply: Reply)
    requires
        prune_next(p, reply) matches Some(next) && prune_request(next) is RemoveDir,
    ensures
        prune_request(p) == Request::ReadDir(p.dir),
        prune_next(p, reply) matches Some(next) && next.dir == p.dir,
        reply matches Reply::Entries(content) && holds_nothing(content),
{
}

/// Any entry but the metadata sidecar keeps its folder, the marker of a folder too, and so does an
/// entry that cannot be read: the prune ends there.
pub proof fn content_keeps_its_folder(p: PruningView, list: Listing, i: int)
    requires
        0 <= i < list.len(),
        !is_sidecar(list[i]) || (list[i] matches Ok(e) && shown(e.name) == FOLDER_MARKER@),
    ensures
        prune_next(p, Reply::Entries(Ok(list))) is None,
{
    reveal_strlit(".gnkeep");
    reveal_strlit(".gravity-notes.json");
    assert(FOLDER_MARKER@.len() != METADATA_FILENAME@.len());
}

} // verus!
