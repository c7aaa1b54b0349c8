//! A disk that holds files and folders, what it answers to each operation and how that changes it;
//! and a command that is carried out on it.

use vstd::prelude::*;

use crate::fsio::{Entry, Fault, FileKind, FileMeta, FsRequest, IoFault, Listing, Reply, Request};
use crate::job::{job_next, phase_request, JobView};
use crate::path::{is_file_name, Part, Path};

verus! {

/// A file of the disk.
pub struct FileState {
    pub bytes: Seq<u8>,
    pub modified: Option<u128>,
    pub flags: u32,
}

/// The files and folders of a disk. It holds no links.
#[verifier::ext_equal]
pub struct World {
    pub files: Map<Path, FileState>,
    pub folders: Set<Path>,
}

/// The system around a disk.
pub struct System {
    /// Where the path of an entry really leads.
    pub real_of: spec_fn(Path) -> Path,
    /// What the content of a folder is reported as.
    pub lists: spec_fn(World, Path) -> Listing,
    /// The time that a file gets which is written now.
    pub now: Option<u128>,
    /// What is known of a folder.
    pub folder: FileMeta,
    /// The words for an entry that is missing.
    pub missing: Seq<char>,
    /// The words for an operation that is not possible.
    pub impossible: Seq<char>,
    /// Whether the file manager shows an entry.
    pub shows: spec_fn(Path) -> bool,
}

/// What is known of a file.
pub open spec fn meta_of(file: FileState) -> FileMeta {
    FileMeta {
        is_file: true,
        size: file.bytes.len() as u64,
        modified: file.modified,
        flags: file.flags,
    }
}

/// Whether something is at `p`.
pub open spec fn is_there(w: World, p: Path) -> bool {
    w.files.contains_key(p) || w.folders.contains(p)
}

/// Whether a file stands where a folder would have to be on the way to `p`.
pub open spec fn is_blocked(w: World, p: Path) -> bool {
    exists|j: int| 0 <= j < p.len() && w.files.contains_key(#[trigger] p.take(j))
}

/// The fault of an operation on `p`, where nothing is.
pub open spec fn fault_at(sys: System, w: World, p: Path) -> Fault {
    if is_blocked(w, p) {
        IoFault { not_found: false, text: sys.impossible }
    } else {
        IoFault { not_found: true, text: sys.missing }
    }
}

/// The fault of an operation that is not possible.
pub open spec fn refusal_of(sys: System) -> Fault {
    IoFault { not_found: false, text: sys.impossible }
}

/// Whether the folder `dir` holds an entry of this name.
pub open spec fn is_child(w: World, dir: Path, name: Seq<u8>) -> bool {
    is_there(w, dir.push(Part::Name(name)))
}

/// Whether the folder `dir` holds nothing.
pub open spec fn is_empty_folder(w: World, dir: Path) -> bool {
    forall|name: Seq<u8>| !#[trigger] is_child(w, dir, name)
}

/// Whether the folder holding `p` is there.
pub open spec fn has_folder(w: World, p: Path) -> bool {
    p.len() > 0 && w.folders.contains(p.drop_last())
}

/// Whether `q` lies on the way to `p`, at or below a folder that is there.
pub open spec fn is_on_the_way(w: World, p: Path, q: Path) -> bool {
    q.is_prefix_of(p) && exists|f: Path| #[trigger] w.folders.contains(f) && f.is_prefix_of(q)
}

/// The disk with all folders on the way to `p`, and with the folder `p`.
pub open spec fn with_folders(w: World, p: Path) -> World {
    World { folders: w.folders.union(Set::new(|q: Path| is_on_the_way(w, p, q))), ..w }
}

/// The disk with this file.
pub open spec fn with_file(w: World, p: Path, file: FileState) -> World {
    World { files: w.files.insert(p, file), ..w }
}

/// The disk without the file `p`.
pub open spec fn without_file(w: World, p: Path) -> World {
    World { files: w.files.remove(p), ..w }
}

/// The disk without the empty folder `p`.
pub open spec fn without_folder(w: World, p: Path) -> World {
    World { folders: w.folders.remove(p), ..w }
}

/// The disk without the folder `p` and all that is in it.
pub open spec fn without_all(w: World, p: Path) -> World {
    World {
        files: Map::new(|q: Path| w.files.contains_key(q) && !p.is_prefix_of(q), |q: Path| w.files[q]),
        folders: Set::new(|q: Path| w.folders.contains(q) && !p.is_prefix_of(q)),
    }
}

/// Where the entry at `p` was before `a` was renamed to `b`.
pub open spec fn was_at(a: Path, b: Path, p: Path) -> Path {
    a + p.skip(b.len() as int)
}

/// The disk after `a`, a file or a folder with all that is in it, was renamed to `b`.
pub open spec fn moved(w: World, a: Path, b: Path) -> World {
    if a == b {
        w
    } else if w.files.contains_key(a) {
        World { files: w.files.remove(a).insert(b, w.files[a]), ..w }
    } else {
        World {
            files: Map::new(
                |p: Path|
                    if b.is_prefix_of(p) {
                        w.files.contains_key(was_at(a, b, p))
                    } else {
                        w.files.contains_key(p) && !a.is_prefix_of(p)
                    },
                |p: Path|
                    if b.is_prefix_of(p) {
                        w.files[was_at(a, b, p)]
                    } else {
                        w.files[p]
                    },
            ),
            folders: Set::new(
                |p: Path|
                    if b.is_prefix_of(p) {
                        w.folders.contains(was_at(a, b, p))
                    } else {
                        w.folders.contains(p) && !a.is_prefix_of(p)
                    },
            ),
        }
    }
}

/// Whether `a` can be renamed to `b`: its folder is there, and nothing else is in the way. A file
/// replaces a file; a folder goes neither onto something nor into itself.
pub open spec fn can_move(w: World, a: Path, b: Path) -> bool {
    is_there(w, a) && (a == b || (has_folder(w, b) && if w.files.contains_key(a) {
        !w.folders.contains(b)
    } else {
        !is_there(w, b) && !a.is_prefix_of(b)
    }))
}

/// The answer to an operation that gives nothing back.
pub open spec fn ended(is_done: bool, fault: Fault) -> Reply {
    if is_done {
        Reply::Done(Ok(()))
    } else {
        Reply::Done(Err(fault))
    }
}

/// What the disk answers to an operation.
pub open spec fn answer(sys: System, w: World, request: Request) -> Reply {
    match request {
        FsRequest::Canonicalize(p) => Reply::Canonical(
            if is_there(w, p) {
                Ok((sys.real_of)(p))
            } else {
                Err(fault_at(sys, w, p))
            },
        ),
        FsRequest::ReadLink(p) => Reply::Link(
            if is_there(w, p) {
                Ok(None)
            } else {
                Err(fault_at(sys, w, p))
            },
        ),
        FsRequest::Metadata(p) => Reply::Meta(
            if w.files.contains_key(p) {
                Ok(meta_of(w.files[p]))
            } else if w.folders.contains(p) {
                Ok(sys.folder)
            } else {
                Err(fault_at(sys, w, p))
            },
        ),
        FsRequest::Exists(p) => Reply::Exists(is_there(w, p)),
        FsRequest::ReadDir(p) => Reply::Entries(
            if w.folders.contains(p) {
                Ok((sys.lists)(w, p))
            } else if w.files.contains_key(p) {
                Err(refusal_of(sys))
            } else {
                Err(fault_at(sys, w, p))
            },
        ),
        FsRequest::ReadFile(p) => Reply::Bytes(
            if w.files.contains_key(p) {
                Ok(w.files[p].bytes)
            } else if w.folders.contains(p) {
                Err(refusal_of(sys))
            } else {
                Err(fault_at(sys, w, p))
            },
        ),
        FsRequest::ReadHead(p, n) => Reply::Bytes(
            if w.files.contains_key(p) {
                if w.files[p].bytes.len() <= n {
                    Ok(w.files[p].bytes)
                } else {
                    Ok(w.files[p].bytes.take(n as int))
                }
            } else if w.folders.contains(p) {
                Err(refusal_of(sys))
            } else {
                Err(fault_at(sys, w, p))
            },
        ),
        FsRequest::WriteFile(p, _) => ended(
            has_folder(w, p) && !w.folders.contains(p),
            refusal_of(sys),
        ),
        FsRequest::CreateDirAll(p) => ended(
            !is_blocked(w, p) && !w.files.contains_key(p),
            refusal_of(sys),
        ),
        FsRequest::Rename(a, b) => ended(
            can_move(w, a, b),
            if is_there(w, a) {
                refusal_of(sys)
            } else {
                fault_at(sys, w, a)
            },
        ),
        FsRequest::Copy(a, b) => ended(
            w.files.contains_key(a) && has_folder(w, b) && !w.folders.contains(b),
            refusal_of(sys),
        ),
        FsRequest::RemoveFile(p) => ended(
            w.files.contains_key(p),
            if w.folders.contains(p) {
                refusal_of(sys)
            } else {
                fault_at(sys, w, p)
            },
        ),
        FsRequest::RemoveDir(p) => ended(
            w.folders.contains(p) && is_empty_folder(w, p),
            if is_there(w, p) {
                refusal_of(sys)
            } else {
                fault_at(sys, w, p)
            },
        ),
        FsRequest::RemoveDirAll(p) => ended(
            w.folders.contains(p),
            if w.files.contains_key(p) {
                refusal_of(sys)
            } else {
                fault_at(sys, w, p)
            },
        ),
        FsRequest::Reveal(p) => Reply::Launched(Ok((sys.shows)(p))),
    }
}

/// The disk after an operation; one that fails changes nothing.
pub open spec fn acted(sys: System, w: World, request: Request) -> World {
    match request {
        FsRequest::WriteFile(p, bytes) => if has_folder(w, p) && !w.folders.contains(p) {
            with_file(w, p, FileState { bytes, modified: sys.now, flags: 0 })
        } else {
            w
        },
        FsRequest::CreateDirAll(p) => if !is_blocked(w, p) && !w.files.contains_key(p) {
            with_folders(w, p)
        } else {
            w
        },
        FsRequest::Rename(a, b) => if can_move(w, a, b) {
            moved(w, a, b)
        } else {
            w
        },
        FsRequest::Copy(a, b) => if w.files.contains_key(a) && has_folder(w, b)
            && !w.folders.contains(b) {
            with_file(w, b, w.files[a])
        } else {
            w
        },
        FsRequest::RemoveFile(p) => without_file(w, p),
        FsRequest::RemoveDir(p) => if w.folders.contains(p) && is_empty_folder(w, p) {
            without_folder(w, p)
        } else {
            w
        },
        FsRequest::RemoveDirAll(p) => if w.folders.contains(p) {
            without_all(w, p)
        } else {
            w
        },
        _ => w,
    }
}

/// A command on a disk.
pub struct Running {
    pub world: World,
    pub job: JobView,
}

/// Where the next operation of the command leads.
pub open spec fn stepped(sys: System, r: Running) -> Running {
    match phase_request(r.job.phase) {
        Some(request) => Running {
            world: acted(sys, r.world, request),
            job: job_next(r.job, answer(sys, r.world, request)),
        },
        None => r,
    }
}

/// Where the next `n` operations lead.
pub open spec fn run(sys: System, r: Running, n: nat) -> Running
    decreases n,
{
    if n == 0 {
        r
    } else {
        run(sys, stepped(sys, r), (n - 1) as nat)
    }
}

/// Whether a command that is carried out comes from `a` to `b`.
pub open spec fn leads_to(sys: System, a: Running, b: Running) -> bool {
    exists|n: nat| #[trigger] run(sys, a, n) == b
}

/// Whether `entry` is one of the folder `dir`, reported as it is.
pub open spec fn is_true_entry(sys: System, w: World, dir: Path, entry: Entry) -> bool {
    let p = dir.push(Part::Name(entry.name));
    ||| (w.files.contains_key(p) && entry.kind == Ok::<FileKind, Fault>(FileKind::File)
        && entry.meta == Ok::<FileMeta, Fault>(meta_of(w.files[p])))
    ||| (w.folders.contains(p) && entry.kind == Ok::<FileKind, Fault>(FileKind::Dir) && entry.meta
        == Ok::<FileMeta, Fault>(sys.folder))
}

/// Whether `list` holds an entry of this name.
pub open spec fn lists_name(list: Listing, name: Seq<u8>) -> bool {
    exists|i: int| 0 <= i < list.len() && (#[trigger] list[i] matches Ok(e) && e.name == name)
}

/// Whether `list` is what the folder `dir` holds: each entry once, as it is, and nothing else.
pub open spec fn is_true_listing(sys: System, w: World, dir: Path, list: Listing) -> bool {
    &&& forall|i: int|
        0 <= i < list.len() ==> (#[trigger] list[i] matches Ok(e) && is_true_entry(sys, w, dir, e))
    &&& forall|i: int, j: int|
        #![trigger list[i], list[j]]
        0 <= i < list.len() && 0 <= j < list.len() && (list[i] matches Ok(a) && (
        list[j] matches Ok(b) && a.name == b.name)) ==> i == j
    &&& forall|name: Seq<u8>| #[trigger] is_child(w, dir, name) ==> lists_name(list, name)
}

/// Whether all entries of the folder `dir` have names among these.
pub open spec fn are_all_names(w: World, dir: Path, names: Seq<Seq<u8>>) -> bool {
    forall|name: Seq<u8>| #[trigger] is_child(w, dir, name) ==> names.contains(name)
}

/// Whether only so many entries are in `dir`.
pub open spec fn is_finite_at(w: World, dir: Path) -> bool {
    exists|names: Seq<Seq<u8>>| are_all_names(w, dir, names)
}

/// Whether a disk can be as it is: nothing is both a file and a folder, every name can name an
/// entry, and each folder holds only so many.
pub open spec fn is_tidy(w: World) -> bool {
    &&& forall|p: Path| #[trigger] w.files.contains_key(p) ==> !w.folders.contains(p)
    &&& forall|dir: Path, name: Seq<u8>| #[trigger]
        is_child(w, dir, name) ==> is_file_name(name)
    &&& forall|dir: Path| #[trigger] is_finite_at(w, dir)
}

/// Whether everything but what is topmost lies in a folder that is there.
pub open spec fn is_tree(w: World) -> bool {
    forall|p: Path| p.len() > 1 && #[trigger] is_there(w, p) ==> w.folders.contains(p.drop_last())
}

/// Whether a system reports what is on its disk.
pub open spec fn is_honest(sys: System) -> bool {
    &&& !sys.folder.is_file
    &&& forall|w: World, dir: Path|
        is_tidy(w) && w.folders.contains(dir) ==> is_true_listing(
            sys,
            w,
            dir,
            #[trigger] (sys.lists)(w, dir),
        )
}

/// Whether the folder `root` is there, no file is on the way to it, and what is below it really lies
/// in it.
pub open spec fn is_home(sys: System, w: World, root: Path) -> bool {
    &&& w.folders.contains(root)
    &&& !is_blocked(w, root)
    &&& forall|p: Path|
        is_there(w, p) && root.is_prefix_of(p) ==> (sys.real_of)(root).is_prefix_of(
            #[trigger] (sys.real_of)(p),
        )
}

pub proof fn leads_nowhere_else(sys: System, a: Running)
    ensures
        leads_to(sys, a, a),
{
    assert(run(sys, a, 0) == a);
}

pub proof fn leads_a_step(sys: System, a: Running)
    ensures
        leads_to(sys, a, stepped(sys, a)),
{
    assert(run(sys, stepped(sys, a), 0) == stepped(sys, a));
    assert(run(sys, a, 1) == stepped(sys, a));
}

proof fn run_further(sys: System, a: Running, m: nat, n: nat)
    ensures
        run(sys, run(sys, a, m), n) == run(sys, a, m + n),
    decreases m,
{
    if m > 0 {
        run_further(sys, stepped(sys, a), (m - 1) as nat, n);
    }
}

pub proof fn leads_on(sys: System, a: Running, b: Running, c: Running)
    requires
        leads_to(sys, a, b),
        leads_to(sys, b, c),
    ensures
        leads_to(sys, a, c),
{
    let m = choose|m: nat| #[trigger] run(sys, a, m) == b;
    let n = choose|n: nat| #[trigger] run(sys, b, n) == c;
    run_further(sys, a, m, n);
}

pub proof fn leads_by_a_step(sys: System, a: Running, c: Running)
    requires
        leads_to(sys, stepped(sys, a), c),
    ensures
        leads_to(sys, a, c),
{
    leads_a_step(sys, a);
    leads_on(sys, a, stepped(sys, a), c);
}

/// A command that has ended has one end only.
pub proof fn a_command_has_one_end(sys: System, a: Running, b: Running, c: Running)
    requires
        leads_to(sys, a, b),
        leads_to(sys, a, c),
        phase_request(b.job.phase) is None,
        phase_request(c.job.phase) is None,
    ensures
        b == c,
{
    let m = choose|m: nat| #[trigger] run(sys, a, m) == b;
    let n = choose|n: nat| #[trigger] run(sys, a, n) == c;
    if m <= n {
        run_further(sys, a, m, (n - m) as nat);
        run_stays(sys, b, (n - m) as nat);
    } else {
        run_further(sys, a, n, (m - n) as nat);
        run_stays(sys, c, (m - n) as nat);
    }
}

proof fn run_stays(sys: System, a: Running, n: nat)
    requires
        phase_request(a.job.phase) is None,
    ensures
        run(sys, a, n) == a,
    decreases n,
{
    if n > 0 {
        run_stays(sys, a, (n - 1) as nat);
    }
}

} // verus!
