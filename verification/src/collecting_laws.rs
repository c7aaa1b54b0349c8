//! What the walks and the listings of single folders give back, on a disk that holds files and
//! folders.

use vstd::prelude::*;

use crate::commands::walk_job;
use crate::disk_laws::target_of;
use crate::find_laws::{
    collected_finds, entries_of, finds_in, has_distinct_names, has_entry, is_folder_at, is_found_as,
    is_genuine_disk, is_of, is_read_from, is_sought, path_at, rel_at, Names,
};
use crate::fsio::{Entry, Fault, FileKind, Listing, Reply, Request};
use crate::job::{
    as_folders, as_heads, as_notes, done, failed, resolved, root_of, walk_outcome, Outcome, Phase,
    PhaseView, Task,
};
use crate::job_laws::{attachments_job, is_genuine_listing};
use crate::listing::{
    attachment_visit, attachments_in, id_in, note_visit, notes_in, removable, removal_visit,
    AttachmentEntry, AttachmentView, FullView, HeadView, NoteFull, NoteHead,
};
use crate::names::is_note_name;
use crate::path::{is_file_name, Part, Path};
use crate::reading_laws::walking_keeps_the_kind;
use crate::resolve::{encoding_joins, utf8};
use crate::rule_laws::{
    messages_read, note_names_end_in_md, only_the_flag_says_evicted, text_is_shown_as_it_is,
};
use crate::text::shown;
use crate::walk::{
    id_of, is_barred, look, todos, walk_next, walk_request, walking, FoundView, Look, TodoView,
    WalkKind, WalkStepView, WalkView,
};
use crate::walk_laws::{
    body_request, collected, collected_all, collected_one, walk_end, walk_finds_what_is_there,
    walked, StillDisk,
};
use crate::watch::slash_joined;
use crate::world::{
    acted, answer, is_blocked, is_child, is_home, is_honest, is_there, is_tidy, is_tree,
    is_true_entry, is_true_listing, leads_a_step, leads_by_a_step, leads_to, lists_name, meta_of,
    stepped, FileState, Running, System, World,
};
use crate::world_laws::{ended_with, goes_on_from_there, is_open_path, started, time_of};

verus! {

/// What the disk answers, as one that stands still.
pub open spec fn disk_of(sys: System, w: World) -> StillDisk {
    |request: Request| answer(sys, w, request)
}

/// How a command that is a walk ends, by how the walk ends.
pub open spec fn walk_phase(
    kind: WalkKind,
    end: Result<Seq<FoundView>, Seq<char>>,
) -> PhaseView {
    match end {
        Ok(found) => done(walk_outcome(kind, found)),
        Err(message) => failed(message),
    }
}

proof fn a_walk_is_carried_out(
    sys: System,
    w: World,
    dir: Seq<char>,
    at: WalkView,
    n: nat,
    end: Result<Seq<FoundView>, Seq<char>>,
)
    requires
        walked(WalkStepView::More(at), disk_of(sys, w), n) == walk_end(end),
    ensures
        leads_to(
            sys,
            ended_with(w, dir, Phase::Walk { at }),
            ended_with(w, dir, walk_phase(at.kind, end)),
        ),
    decreases n,
{
    let here = ended_with(w, dir, Phase::Walk { at });
    let last = ended_with(w, dir, walk_phase(at.kind, end));
    let disk = disk_of(sys, w);
    let request = walk_request(at);
    assert(n > 0);
    assert(acted(sys, w, request) == w);
    let next = walk_next(at, disk(request));
    assert(walked(WalkStepView::More(at), disk, n) == walked(next, disk, (n - 1) as nat));
    walking_keeps_the_kind(at, disk(request));
    match next {
        WalkStepView::More(later) => {
            assert(stepped(sys, here) == ended_with(w, dir, Phase::Walk { at: later }));
            a_walk_is_carried_out(sys, w, dir, later, (n - 1) as nat, end);
            leads_by_a_step(sys, here, last);
        },
        _ => {
            assert(stepped(sys, here) == last);
            leads_a_step(sys, here);
        },
    }
}

proof fn an_honest_disk_is_genuine(sys: System, w: World)
    requires
        is_honest(sys),
        is_tidy(w),
    ensures
        is_genuine_disk(disk_of(sys, w)),
{
    let disk = disk_of(sys, w);
    assert forall|dir: Path|
        is_genuine_listing(#[trigger] entries_of(disk, dir))
            && has_distinct_names(entries_of(disk, dir)) by {
        let list = entries_of(disk, dir);
        if w.folders.contains(dir) {
            assert(list == (sys.lists)(w, dir));
            assert(is_true_listing(sys, w, dir, list));
            assert forall|i: int| 0 <= i < list.len() implies ((#[trigger] list[i]) matches Ok(e)
                ==> is_file_name(e.name)) by {
                if let Ok(e) = list[i] {
                    assert(is_true_entry(sys, w, dir, e));
                    assert(is_child(w, dir, e.name));
                }
            }
        } else {
            assert(list.len() == 0);
        }
    }
}

proof fn entries_are_told(sys: System, w: World, dir: Path, name: Seq<u8>)
    requires
        is_honest(sys),
        is_tidy(w),
    ensures
        has_entry(disk_of(sys, w), dir, name, FileKind::File) <==> w.folders.contains(dir)
            && w.files.contains_key(dir.push(Part::Name(name))),
        has_entry(disk_of(sys, w), dir, name, FileKind::Dir) <==> w.folders.contains(dir)
            && w.folders.contains(dir.push(Part::Name(name))),
{
    let disk = disk_of(sys, w);
    let p = dir.push(Part::Name(name));
    let list = entries_of(disk, dir);
    if w.folders.contains(dir) {
        assert(list == (sys.lists)(w, dir));
        assert(is_true_listing(sys, w, dir, list));
        assert forall|i: int, kind: FileKind|
            0 <= i < list.len() && #[trigger] is_of(list[i], name, kind) implies (kind
            == FileKind::File ==> w.files.contains_key(p)) && (kind == FileKind::Dir
            ==> w.folders.contains(p)) by {
            if let Ok(e) = list[i] {
                assert(is_true_entry(sys, w, dir, e));
            }
        }
        if is_there(w, p) {
            assert(is_child(w, dir, name));
            assert(lists_name(list, name));
            let i = choose|i: int|
                0 <= i < list.len() && (#[trigger] list[i] matches Ok(e) && e.name == name);
            if let Ok(e) = list[i] {
                assert(is_true_entry(sys, w, dir, e));
                if w.files.contains_key(p) {
                    assert(is_of(list[i], name, FileKind::File));
                } else {
                    assert(is_of(list[i], name, FileKind::Dir));
                }
            }
        }
    } else {
        assert(list.len() == 0);
    }
}

proof fn paths_grow(root: Path, names: Names)
    ensures
        path_at(root, names).len() == root.len() + names.len(),
        root.is_prefix_of(path_at(root, names)),
    decreases names.len(),
{
    if names.len() > 0 {
        paths_grow(root, names.drop_last());
        let up = path_at(root, names.drop_last());
        let p = path_at(root, names);
        assert(p.subrange(0, root.len() as int) =~= up.subrange(0, root.len() as int));
    } else {
        assert(root.subrange(0, root.len() as int) =~= root);
    }
}

/// Whether the walks enter every folder on the way that these names lead.
pub open spec fn is_entered(names: Names) -> bool {
    forall|k: int| 0 <= k < names.len() ==> !is_barred(k == 0, shown(#[trigger] names[k]))
}

proof fn folders_are_reached(sys: System, w: World, root: Path, names: Names)
    requires
        is_honest(sys),
        is_tidy(w),
        is_tree(w),
        w.folders.contains(root),
    ensures
        is_folder_at(disk_of(sys, w), root, names) <==> w.folders.contains(path_at(root, names))
            && is_entered(names),
    decreases names.len(),
{
    if names.len() > 0 {
        let front = names.drop_last();
        folders_are_reached(sys, w, root, front);
        entries_are_told(sys, w, path_at(root, front), names.last());
        paths_grow(root, names);
        paths_grow(root, front);
        let p = path_at(root, names);
        assert(p.drop_last() =~= path_at(root, front));
        if is_entered(names) {
            assert forall|k: int| 0 <= k < front.len() implies !is_barred(
                k == 0,
                shown(#[trigger] front[k]),
            ) by {
                assert(front[k] == names[k]);
            }
            assert(!is_barred(names.len() - 1 == 0, shown(names[names.len() - 1])));
            if w.folders.contains(p) && p.len() > 1 {
                assert(is_there(w, p));
            } else if w.folders.contains(p) {
                assert(front.len() == 0);
            }
        }
        if is_folder_at(disk_of(sys, w), root, names) {
            assert forall|k: int| 0 <= k < names.len() implies !is_barred(
                k == 0,
                shown(#[trigger] names[k]),
            ) by {
                if k < front.len() {
                    assert(front[k] == names[k]);
                }
            }
        }
    }
}

/// Whether these names lead to a note that the walks list: a file with a note's name, and no folder
/// on the way that is barred.
pub open spec fn is_listed_note(w: World, root: Path, names: Names) -> bool {
    &&& names.len() > 0
    &&& w.files.contains_key(path_at(root, names))
    &&& is_note_name(shown(names.last()))
    &&& is_entered(names.drop_last())
}

/// Whether these names lead to a folder that the walks list.
pub open spec fn is_listed_folder(w: World, root: Path, names: Names) -> bool {
    names.len() > 0 && w.folders.contains(path_at(root, names)) && is_entered(names)
}

proof fn what_is_sought(sys: System, w: World, root: Path, kind: WalkKind, names: Names)
    requires
        is_honest(sys),
        is_tidy(w),
        is_tree(w),
        w.folders.contains(root),
    ensures
        is_sought(disk_of(sys, w), kind, root, names) <==> if kind == WalkKind::Folders {
            is_listed_folder(w, root, names)
        } else {
            is_listed_note(w, root, names)
        },
{
    if kind == WalkKind::Folders {
        folders_are_reached(sys, w, root, names);
    } else if names.len() > 0 {
        let front = names.drop_last();
        folders_are_reached(sys, w, root, front);
        entries_are_told(sys, w, path_at(root, front), names.last());
        paths_grow(root, names);
        paths_grow(root, front);
        let p = path_at(root, names);
        assert(p.drop_last() =~= path_at(root, front));
        if w.files.contains_key(p) {
            assert(is_there(w, p));
            if p.len() <= 1 {
                assert(front.len() == 0);
            }
        }
    }
}

/// Whether no folder below `root` is nested deeper than this.
pub open spec fn is_nested_to(w: World, root: Path, depth: nat) -> bool {
    forall|p: Path|
        #![trigger w.folders.contains(p)]
        w.folders.contains(p) && root.is_prefix_of(p) ==> p.len() <= root.len() + depth
}

proof fn a_folder_is_collected(
    sys: System,
    w: World,
    root: Path,
    kind: WalkKind,
    dir: Path,
    rel: Seq<u8>,
    depth: nat,
    left: nat,
)
    requires
        is_honest(sys),
        is_tidy(w),
        is_nested_to(w, root, depth),
        w.folders.contains(dir),
        root.is_prefix_of(dir),
        left + dir.len() > root.len() + depth,
    ensures
        collected(disk_of(sys, w), kind, dir, rel, left) matches Some(Ok(_)),
    decreases left, 0nat,
{
    let list = (sys.lists)(w, dir);
    assert(is_true_listing(sys, w, dir, list));
    let all = todos(dir, rel, list);
    assert forall|i: int| 0 <= i < all.len() implies (#[trigger] all[i]).dir == dir && (
    all[i].entry matches Ok(e) && is_true_entry(sys, w, dir, e)) by {
        assert(all[i].entry == list[i]);
    }
    entries_are_collected(sys, w, root, kind, dir, all, depth, (left - 1) as nat);
}

proof fn entries_are_collected(
    sys: System,
    w: World,
    root: Path,
    kind: WalkKind,
    dir: Path,
    todo: Seq<TodoView>,
    depth: nat,
    left: nat,
)
    requires
        is_honest(sys),
        is_tidy(w),
        is_nested_to(w, root, depth),
        root.is_prefix_of(dir),
        left + dir.len() + 1 > root.len() + depth,
        forall|i: int|
            0 <= i < todo.len() ==> (#[trigger] todo[i]).dir == dir && (todo[i].entry matches Ok(e)
                && is_true_entry(sys, w, dir, e)),
    ensures
        collected_all(disk_of(sys, w), kind, todo, left) matches Some(Ok(_)),
    decreases left, 1 + todo.len(),
{
    let disk = disk_of(sys, w);
    if todo.len() > 0 {
        let rest = todo.drop_first();
        assert forall|i: int| 0 <= i < rest.len() implies (#[trigger] rest[i]).dir == dir && (
        rest[i].entry matches Ok(e) && is_true_entry(sys, w, dir, e)) by {
            assert(rest[i] == todo[i + 1]);
        }
        entries_are_collected(sys, w, root, kind, dir, rest, depth, left);
        let first = todo[0];
        if let Ok(e) = first.entry {
            let p = dir.push(Part::Name(e.name));
            assert(is_true_entry(sys, w, dir, e));
            match look(kind, first) {
                Look::Enter { dir: inner, rel } => {
                    assert(inner == p);
                    assert(w.folders.contains(p));
                    assert(root.is_prefix_of(p)) by {
                        assert(p.subrange(0, root.len() as int) =~= dir.subrange(
                            0,
                            root.len() as int,
                        ));
                    }
                    a_folder_is_collected(sys, w, root, kind, p, rel, depth, left);
                },
                Look::Read { path, .. } => {
                    assert(path == p);
                    assert(w.files.contains_key(p));
                    assert(disk(body_request(kind, path)) matches Reply::Bytes(Ok(_)));
                },
                _ => {},
            }
        }
        assert(collected_one(disk, kind, first, left) matches Some(Ok(_)));
    }
}

/// The part of a file that a walk gives back as the body of a note: none where the flag that says
/// that the content is evicted is set; else the whole text, or that of the first 500 bytes.
pub open spec fn body_of(whole: bool, file: FileState) -> Seq<char> {
    if file.flags & 0x4000_0000u32 != 0 {
        Seq::empty()
    } else if whole || file.bytes.len() <= 500 {
        shown(file.bytes)
    } else {
        shown(file.bytes.take(500))
    }
}

/// A walk on a disk, at its beginning.
pub open spec fn walk_started(w: World, dir: Seq<char>, kind: WalkKind) -> Running {
    Running { world: w, job: walk_job(dir, kind) }
}

/// Whether the walks can go over the picked folder: it is there, and what is in it is reported as
/// it is.
pub open spec fn can_walk(sys: System, w: World, dir: Seq<char>, depth: nat) -> bool {
    &&& is_honest(sys)
    &&& is_tidy(w)
    &&& is_tree(w)
    &&& w.folders.contains(root_of(dir))
    &&& is_nested_to(w, root_of(dir), depth)
}

proof fn a_walk_ends(sys: System, w: World, dir: Seq<char>, kind: WalkKind, depth: nat) -> (res: (
    Seq<FoundView>,
    Seq<Names>,
))
    requires
        can_walk(sys, w, dir, depth),
    ensures
        leads_to(
            sys,
            walk_started(w, dir, kind),
            ended_with(w, dir, done(walk_outcome(kind, res.0))),
        ),
        res.1.no_duplicates(),
        forall|names: Names| #[trigger]
            res.1.contains(names) <==> if kind == WalkKind::Folders {
                is_listed_folder(w, root_of(dir), names)
            } else {
                is_listed_note(w, root_of(dir), names)
            },
        res.0.len() == res.1.len(),
        forall|i: int|
            0 <= i < res.0.len() ==> {
                let names = #[trigger] res.1[i];
                &&& res.0[i].rel == id_of(rel_at(names))
                &&& kind != WalkKind::Folders ==> {
                    let file = w.files[path_at(root_of(dir), names)];
                    &&& res.0[i].modified_ms == time_of(file.modified)
                    &&& res.0[i].body == body_of(kind == WalkKind::Full, file)
                }
            },
{
    let root = root_of(dir);
    let disk = disk_of(sys, w);
    let n = depth + 1;
    assert(root.is_prefix_of(root)) by {
        assert(root.subrange(0, root.len() as int) =~= root);
    }
    a_folder_is_collected(sys, w, root, kind, root, Seq::empty(), depth, n);
    an_honest_disk_is_genuine(sys, w);
    collected_finds(disk, kind, root, n);
    let found = collected(disk, kind, root, Seq::empty(), n)->Some_0->Ok_0;
    let paths = finds_in(disk, kind, root, Seq::empty(), n);
    walk_finds_what_is_there(disk, kind, root, n);
    let steps = choose|steps: nat|
        walked(WalkStepView::More(walking(kind, root)), disk, steps) == walk_end(Ok(found));
    a_walk_is_carried_out(sys, w, dir, walking(kind, root), steps, Ok(found));
    assert forall|names: Names| #[trigger] paths.contains(names) <==> if kind == WalkKind::Folders {
        is_listed_folder(w, root, names)
    } else {
        is_listed_note(w, root, names)
    } by {
        what_is_sought(sys, w, root, kind, names);
        assert(paths.contains(names) <==> is_sought(disk, kind, root, names));
    }
    assert forall|i: int| 0 <= i < found.len() implies {
        let names = #[trigger] paths[i];
        &&& found[i].rel == id_of(rel_at(names))
        &&& kind != WalkKind::Folders ==> {
            let file = w.files[path_at(root, names)];
            &&& found[i].modified_ms == time_of(file.modified)
            &&& found[i].body == body_of(kind == WalkKind::Full, file)
        }
    } by {
        let names = paths[i];
        let find = found[i];
        assert(paths.contains(names));
        assert(is_found_as(disk, kind, root, names, find));
        if kind != WalkKind::Folders {
            let up = path_at(root, names.drop_last());
            let p = path_at(root, names);
            let list = entries_of(disk, up);
            let j = choose|j: int|
                is_read_from(
                    disk,
                    kind,
                    p,
                    #[trigger] list[j],
                    names.last(),
                    find,
                ) && 0 <= j < list.len();
            assert(list == (sys.lists)(w, up));
            assert(is_true_listing(sys, w, up, list));
            if let Ok(e) = list[j] {
                assert(is_true_entry(sys, w, up, e));
                assert(up.push(Part::Name(e.name)) == p);
                assert(w.files.contains_key(p));
                only_the_flag_says_evicted(meta_of(w.files[p]));
            }
        }
    }
    (found, paths)
}

/// Listing the notes gives each once: every file below the picked folder, at any depth, whose name
/// is a note's and on whose way no folder is barred. Each comes with its id, its last change and the
/// text of its first 500 bytes, or with no text where it is evicted; its size does not matter.
pub proof fn every_note_is_listed(sys: System, w: World, dir: Seq<char>, depth: nat) -> (res: (
    Seq<HeadView>,
    Seq<Names>,
))
    requires
        can_walk(sys, w, dir, depth),
    ensures
        leads_to(
            sys,
            walk_started(w, dir, WalkKind::Heads),
            ended_with(w, dir, done(Outcome::Heads(res.0))),
        ),
        res.1.no_duplicates(),
        forall|names: Names| #[trigger]
            res.1.contains(names) <==> is_listed_note(w, root_of(dir), names),
        res.0.len() == res.1.len(),
        forall|i: int|
            0 <= i < res.0.len() ==> (#[trigger] res.0[i]) == ({
                let names = res.1[i];
                let file = w.files[path_at(root_of(dir), names)];
                NoteHead {
                    name: id_of(rel_at(names)),
                    modified_ms: time_of(file.modified),
                    head: body_of(false, file),
                }
            }),
{
    let (found, paths) = a_walk_ends(sys, w, dir, WalkKind::Heads, depth);
    let heads = as_heads(found);
    assert forall|i: int| 0 <= i < heads.len() implies (#[trigger] heads[i]) == ({
        let names = paths[i];
        let file = w.files[path_at(root_of(dir), names)];
        NoteHead {
            name: id_of(rel_at(names)),
            modified_ms: time_of(file.modified),
            head: body_of(false, file),
        }
    }) by {
        let names = paths[i];
        assert(found[i].rel == id_of(rel_at(names)));
    }
    (heads, paths)
}

/// Reading all notes gives each once, as a listing does, with its whole text, or with none where it
/// is evicted; its size does not matter.
pub proof fn every_note_is_read(sys: System, w: World, dir: Seq<char>, depth: nat) -> (res: (
    Seq<FullView>,
    Seq<Names>,
))
    requires
        can_walk(sys, w, dir, depth),
    ensures
        leads_to(
            sys,
            walk_started(w, dir, WalkKind::Full),
            ended_with(w, dir, done(Outcome::Notes(res.0))),
        ),
        res.1.no_duplicates(),
        forall|names: Names| #[trigger]
            res.1.contains(names) <==> is_listed_note(w, root_of(dir), names),
        res.0.len() == res.1.len(),
        forall|i: int|
            0 <= i < res.0.len() ==> (#[trigger] res.0[i]) == ({
                let names = res.1[i];
                let file = w.files[path_at(root_of(dir), names)];
                NoteFull {
                    name: id_of(rel_at(names)),
                    modified_ms: time_of(file.modified),
                    content: body_of(true, file),
                }
            }),
{
    let (found, paths) = a_walk_ends(sys, w, dir, WalkKind::Full, depth);
    let notes = as_notes(found);
    assert forall|i: int| 0 <= i < notes.len() implies (#[trigger] notes[i]) == ({
        let names = paths[i];
        let file = w.files[path_at(root_of(dir), names)];
        NoteFull {
            name: id_of(rel_at(names)),
            modified_ms: time_of(file.modified),
            content: body_of(true, file),
        }
    }) by {
        let names = paths[i];
        assert(found[i].rel == id_of(rel_at(names)));
    }
    (notes, paths)
}

/// Listing the folders gives each once: every folder below the picked one, at any depth, that is not
/// barred and on whose way none is. Each comes with its id.
pub proof fn every_folder_is_listed(sys: System, w: World, dir: Seq<char>, depth: nat) -> (res: (
    Seq<Seq<char>>,
    Seq<Names>,
))
    requires
        can_walk(sys, w, dir, depth),
    ensures
        leads_to(
            sys,
            walk_started(w, dir, WalkKind::Folders),
            ended_with(w, dir, done(Outcome::Folders(res.0))),
        ),
        res.1.no_duplicates(),
        forall|names: Names| #[trigger]
            res.1.contains(names) <==> is_listed_folder(w, root_of(dir), names),
        res.0.len() == res.1.len(),
        forall|i: int|
            0 <= i < res.0.len() ==> (#[trigger] res.0[i]) == id_of(rel_at(res.1[i])),
{
    let (found, paths) = a_walk_ends(sys, w, dir, WalkKind::Folders, depth);
    let ids = as_folders(found);
    assert forall|i: int| 0 <= i < ids.len() implies (#[trigger] ids[i]) == id_of(
        rel_at(paths[i]),
    ) by {
        let names = paths[i];
        assert(found[i].rel == id_of(rel_at(names)));
    }
    (ids, paths)
}

/// A walk over a picked folder that is missing, or that is no folder, ends with saying so.
pub proof fn a_missing_folder_is_reported(sys: System, w: World, dir: Seq<char>, kind: WalkKind)
    requires
        !w.folders.contains(root_of(dir)),
        !is_blocked(w, root_of(dir)),
    ensures
        leads_to(
            sys,
            walk_started(w, dir, kind),
            ended_with(
                w,
                dir,
                failed(
                    if w.files.contains_key(root_of(dir)) {
                        sys.impossible
                    } else {
                        sys.missing
                    },
                ),
            ),
        ),
{
    leads_a_step(sys, walk_started(w, dir, kind));
}

/// A file anywhere below the picked folder whose name is any text followed by `.md`, with no barred
/// folder on its way, is among the notes that are listed and among those that are read. It has the
/// time that is reported for it; and where its flags do not say that it is evicted it is read whole,
/// whatever its size.
pub proof fn a_file_that_ends_in_md_is_found(
    sys: System,
    w: World,
    dir: Seq<char>,
    depth: nat,
    folder: Names,
    stem: Seq<char>,
) -> (res: (Seq<HeadView>, int, Seq<FullView>, int))
    requires
        can_walk(sys, w, dir, depth),
        is_entered(folder),
        w.files.contains_key(path_at(root_of(dir), folder.push(utf8(stem + ".md"@)))),
    ensures
        ({
            let names = folder.push(utf8(stem + ".md"@));
            let file = w.files[path_at(root_of(dir), names)];
            let (heads, i, notes, j) = res;
            &&& leads_to(
                sys,
                walk_started(w, dir, WalkKind::Heads),
                ended_with(w, dir, done(Outcome::Heads(heads))),
            )
            &&& leads_to(
                sys,
                walk_started(w, dir, WalkKind::Full),
                ended_with(w, dir, done(Outcome::Notes(notes))),
            )
            &&& 0 <= i < heads.len()
            &&& 0 <= j < notes.len()
            &&& heads[i].name == id_of(rel_at(names))
            &&& notes[j].name == id_of(rel_at(names))
            &&& file.modified matches Some(ms) ==> heads[i].modified_ms == ms
                && notes[j].modified_ms == ms
            &&& file.flags & 0x4000_0000u32 == 0 && vstd::utf8::valid_utf8(file.bytes)
                ==> notes[j].content == vstd::utf8::decode_utf8(file.bytes)
            &&& file.flags & 0x4000_0000u32 != 0 ==> notes[j].content == Seq::<char>::empty()
                && heads[i].head == Seq::<char>::empty()
        }),
{
    let name = utf8(stem + ".md"@);
    let names = folder.push(name);
    let root = root_of(dir);
    let file = w.files[path_at(root, names)];
    note_names_end_in_md(stem, stem, 'm', 'd');
    text_is_shown_as_it_is(stem + ".md"@, file.bytes);
    assert(names.drop_last() =~= folder);
    assert(is_listed_note(w, root, names));
    let (heads, of_heads) = every_note_is_listed(sys, w, dir, depth);
    let (notes, of_notes) = every_note_is_read(sys, w, dir, depth);
    assert(of_heads.contains(names));
    assert(of_notes.contains(names));
    let i = choose|i: int| 0 <= i < of_heads.len() && of_heads[i] == names;
    let j = choose|j: int| 0 <= j < of_notes.len() && of_notes[j] == names;
    assert(heads[i].name == id_of(rel_at(of_heads[i])));
    assert(notes[j].name == id_of(rel_at(of_notes[j])));
    (heads, i, notes, j)
}

proof fn joined_text(texts: Seq<Seq<char>>, names: Names)
    requires
        texts.len() > 0,
        names.len() == texts.len(),
        forall|i: int|
            0 <= i < texts.len() ==> (#[trigger] texts[i]).len() > 0 && !texts[i].contains('/')
                && names[i] == utf8(texts[i]),
    ensures
        rel_at(names) == utf8(slash_joined(texts)),
        rel_at(names).len() > 0,
        rel_at(names).last() != 47u8,
    decreases texts.len(),
{
    let n = texts.len() - 1;
    let last = texts[n];
    let name = names[n];
    text_ends_as_it_ends(last);
    let front = names.drop_last();
    if n == 0 {
        assert(front =~= Seq::empty());
        assert(rel_at(front) =~= Seq::empty());
    } else {
        let before = texts.drop_last();
        assert forall|i: int| 0 <= i < before.len() implies (#[trigger] before[i]).len() > 0
            && !before[i].contains('/') && front[i] == utf8(before[i]) by {
            assert(before[i] == texts[i]);
        }
        joined_text(before, front);
        let joined = slash_joined(before);
        let slash = seq!['/'];
        vstd::utf8::is_ascii_chars_encode_utf8(slash);
        assert(utf8(slash) =~= seq![47u8]);
        encoding_joins(joined, slash);
        encoding_joins(joined + slash, last);
        assert(joined.push('/') + last =~= joined + slash + last);
        assert(rel_at(names) =~= rel_at(front).push(47u8) + name);
    }
    assert(rel_at(names).last() == name.last());
}

proof fn text_ends_as_it_ends(text: Seq<char>)
    requires
        text.len() > 0,
        !text.contains('/'),
    ensures
        utf8(text).len() > 0,
        utf8(text).last() != 47u8,
{
    let front = text.drop_last();
    let c = text.last();
    let one = seq![c];
    assert(text =~= front + one);
    encoding_joins(front, one);
    let bytes = utf8(one);
    vstd::utf8::encode_utf8_valid_utf8(one);
    vstd::utf8::encode_utf8_first_scalar(one);
    vstd::utf8::encode_utf8_decode_utf8(one);
    if bytes.last() == 47u8 {
        let at = bytes.len() - 1;
        vstd::utf8::is_char_boundary_iff_is_leading_byte(bytes, at);
        vstd::utf8::decode_utf8_split(bytes, at);
        let tail = bytes.subrange(at, bytes.len() as int);
        let slash = seq!['/'];
        vstd::utf8::is_ascii_chars_encode_utf8(slash);
        assert(utf8(slash) =~= tail);
        vstd::utf8::encode_utf8_decode_utf8(slash);
        assert(one.last() == '/');
        assert(text.contains(c));
    }
}

/// The id of a note or of a folder is its names, those of the folders that it lies in first, with one
/// slash between each two.
pub proof fn an_id_is_its_names_joined(texts: Seq<Seq<char>>)
    requires
        texts.len() > 0,
        forall|i: int|
            0 <= i < texts.len() ==> (#[trigger] texts[i]).len() > 0 && !texts[i].contains('/'),
        !slash_joined(texts).contains('\\'),
    ensures
        id_of(rel_at(texts.map_values(|text: Seq<char>| utf8(text)))) == slash_joined(texts),
{
    let names = texts.map_values(|text: Seq<char>| utf8(text));
    joined_text(texts, names);
    let all = slash_joined(texts);
    text_is_shown_as_it_is(all, Seq::empty());
    assert(id_of(rel_at(names)) =~= all);
}

/// The notes of a folder are listed one by one, in the order in which it reports its entries: a file
/// with a note's name by its id and its last change, without its text, and nothing else. The first
/// fault is what is reported.
pub proof fn notes_are_listed_one_by_one(
    sub: Seq<char>,
    list: Listing,
    entry: Result<Entry, Fault>,
)
    ensures
        notes_in(sub, Seq::empty()) == Ok::<Seq<HeadView>, Seq<char>>(Seq::empty()),
        ({
            let before = notes_in(sub, list);
            let all = notes_in(sub, list.push(entry));
            &&& before is Err ==> all == before
            &&& before matches Ok(heads) ==> match entry {
                Err(fault) => all == Err::<Seq<HeadView>, Seq<char>>(fault.text),
                Ok(e) => {
                    &&& e.kind matches Err(fault) ==> all == Err::<Seq<HeadView>, Seq<char>>(
                        fault.text,
                    )
                    &&& e.kind matches Ok(kind) ==> if kind == FileKind::File && is_note_name(
                        shown(e.name),
                    ) {
                        match e.meta {
                            Err(fault) => all == Err::<Seq<HeadView>, Seq<char>>(fault.text),
                            Ok(meta) => all == Ok::<Seq<HeadView>, Seq<char>>(
                                heads.push(
                                    NoteHead {
                                        name: id_in(sub, shown(e.name)),
                                        modified_ms: time_of(meta.modified),
                                        head: Seq::empty(),
                                    },
                                ),
                            ),
                        }
                    } else {
                        all == before
                    }
                },
            }
        }),
{
    let visit = |entry: Result<Entry, Fault>| note_visit(sub, entry);
    assert(Seq::<Result<Entry, Fault>>::empty().map_values(visit) =~= Seq::empty());
    let visits = list.push(entry).map_values(visit);
    assert(visits.drop_last() =~= list.map_values(visit));
    assert(visits.last() == note_visit(sub, entry));
}

/// The attachments are listed one by one, in the order in which their folder reports its entries:
/// a file by its name, its size and its last change, unless its name begins with a dot. The first
/// fault is what is reported.
pub proof fn attachments_are_listed_one_by_one(list: Listing, entry: Result<Entry, Fault>)
    ensures
        attachments_in(Seq::empty()) == Ok::<Seq<AttachmentView>, Seq<char>>(Seq::empty()),
        ({
            let before = attachments_in(list);
            let all = attachments_in(list.push(entry));
            &&& before is Err ==> all == before
            &&& before matches Ok(items) ==> match entry {
                Err(fault) => all == Err::<Seq<AttachmentView>, Seq<char>>(fault.text),
                Ok(e) => match e.meta {
                    Err(fault) => all == Err::<Seq<AttachmentView>, Seq<char>>(fault.text),
                    Ok(meta) => {
                        let text = shown(e.name);
                        if meta.is_file && !(text.len() > 0 && text[0] == '.') {
                            all == Ok::<Seq<AttachmentView>, Seq<char>>(
                                items.push(
                                    AttachmentEntry {
                                        name: text,
                                        size: meta.size,
                                        modified_ms: time_of(meta.modified),
                                    },
                                ),
                            )
                        } else {
                            all == before
                        }
                    },
                },
            }
        }),
{
    let visit = |entry: Result<Entry, Fault>| attachment_visit(entry);
    assert(Seq::<Result<Entry, Fault>>::empty().map_values(visit) =~= Seq::empty());
    let visits = list.push(entry).map_values(visit);
    assert(visits.drop_last() =~= list.map_values(visit));
    assert(visits.last() == attachment_visit(entry));
}

/// Whether a folder may be removed is seen entry by entry: only its marker is not in the way, and
/// the first fault is what is reported.
pub proof fn what_is_in_the_way_is_seen_one_by_one(
    path: Seq<char>,
    list: Listing,
    entry: Result<Entry, Fault>,
)
    ensures
        removable(path, Seq::empty()) is Ok,
        ({
            let before = removable(path, list);
            let all = removable(path, list.push(entry));
            &&& before is Err ==> all == before
            &&& before is Ok ==> match entry {
                Err(fault) => all == Err::<Seq<()>, Seq<char>>(fault.text),
                Ok(e) => if e.name == utf8(".gnkeep"@) {
                    all is Ok
                } else {
                    all == Err::<Seq<()>, Seq<char>>("\""@ + path + "\" is not empty"@)
                },
            }
        }),
{
    messages_read(path, Seq::empty(), Seq::empty());
    let visit = |entry: Result<Entry, Fault>| removal_visit(path, entry);
    assert(Seq::<Result<Entry, Fault>>::empty().map_values(visit) =~= Seq::empty());
    let visits = list.push(entry).map_values(visit);
    assert(visits.drop_last() =~= list.map_values(visit));
    assert(visits.last() == removal_visit(path, entry));
}

/// Whether one of the first `n` entries has this name.
pub open spec fn is_named(list: Listing, n: int, name: Seq<u8>) -> bool {
    exists|i: int| 0 <= i < n && (#[trigger] list[i] matches Ok(e) && e.name == name)
}

proof fn notes_so_far(
    sys: System,
    w: World,
    p: Path,
    sub: Seq<char>,
    list: Listing,
    n: int,
) -> (names: Names)
    requires
        is_tidy(w),
        is_true_listing(sys, w, p, list),
        0 <= n <= list.len(),
    ensures
        names.no_duplicates(),
        forall|name: Seq<u8>| #[trigger]
            names.contains(name) <==> is_named(list, n, name) && w.files.contains_key(
                p.push(Part::Name(name)),
            ) && is_note_name(shown(name)),
        notes_in(sub, list.take(n)) == Ok::<Seq<HeadView>, Seq<char>>(
            Seq::new(
                names.len(),
                |i: int|
                    NoteHead {
                        name: id_in(sub, shown(names[i])),
                        modified_ms: time_of(w.files[p.push(Part::Name(names[i]))].modified),
                        head: Seq::empty(),
                    },
            ),
        ),
    decreases n,
{
    let head = |ns: Names|
        Seq::new(
            ns.len(),
            |i: int|
                NoteHead {
                    name: id_in(sub, shown(ns[i])),
                    modified_ms: time_of(w.files[p.push(Part::Name(ns[i]))].modified),
                    head: Seq::<char>::empty(),
                },
        );
    if n == 0 {
        assert(list.take(0) =~= Seq::empty());
        notes_are_listed_one_by_one(sub, Seq::empty(), list[0]);
        let none = Names::empty();
        assert(head(none) =~= Seq::empty());
        none
    } else {
        let before = notes_so_far(sys, w, p, sub, list, n - 1);
        let entry = list[n - 1];
        assert(list.take(n) =~= list.take(n - 1).push(entry));
        notes_are_listed_one_by_one(sub, list.take(n - 1), entry);
        match entry {
            Ok(e) => {
                assert(is_true_entry(sys, w, p, e));
                let file = p.push(Part::Name(e.name));
                assert forall|name: Seq<u8>| #[trigger] is_named(list, n, name) <==> is_named(
                    list,
                    n - 1,
                    name,
                ) || name == e.name by {
                    if is_named(list, n, name) {
                        let i = choose|i: int|
                            0 <= i < n && (#[trigger] list[i] matches Ok(x) && x.name == name);
                        if i < n - 1 {
                            assert(is_named(list, n - 1, name));
                        }
                    }
                    if is_named(list, n - 1, name) {
                        let i = choose|i: int|
                            0 <= i < n - 1 && (#[trigger] list[i] matches Ok(x) && x.name == name);
                        assert(list[i] matches Ok(x) && x.name == name);
                    }
                    if name == e.name {
                        assert(list[n - 1] matches Ok(x) && x.name == name);
                    }
                }
                assert(!is_named(list, n - 1, e.name)) by {
                    if is_named(list, n - 1, e.name) {
                        let i = choose|i: int|
                            0 <= i < n - 1 && (#[trigger] list[i] matches Ok(x) && x.name
                                == e.name);
                        assert(list[i] matches Ok(x) && x.name == e.name);
                        assert(list[n - 1] matches Ok(x) && x.name == e.name);
                    }
                }
                if w.files.contains_key(file) && is_note_name(shown(e.name)) {
                    let all = before.push(e.name);
                    assert(!before.contains(e.name));
                    assert forall|name: Seq<u8>| #[trigger] all.contains(name) <==> before.contains(
                        name,
                    ) || name == e.name by {
                        if before.contains(name) {
                            let i = choose|i: int| 0 <= i < before.len() && before[i] == name;
                            assert(all[i] == name);
                        }
                        if name == e.name {
                            assert(all[before.len() as int] == name);
                        }
                    }
                    assert(head(all) =~= head(before).push(
                        NoteHead {
                            name: id_in(sub, shown(e.name)),
                            modified_ms: time_of(w.files[file].modified),
                            head: Seq::empty(),
                        },
                    ));
                    all
                } else {
                    before
                }
            },
            Err(_) => before,
        }
    }
}

/// Listing a single folder gives each file in it that has a note's name once, by its id and its last
/// change, without its text; where there is no such folder, nothing; and it changes nothing.
pub proof fn the_notes_of_a_folder_are_listed(
    sys: System,
    w: World,
    dir: Seq<char>,
    sub: Seq<char>,
) -> (names: Names)
    requires
        is_honest(sys),
        is_tidy(w),
        is_home(sys, w, root_of(dir)),
        is_open_path(w, dir, sub),
    ensures
        ({
            let p = target_of(dir, sub);
            &&& names.no_duplicates()
            &&& forall|name: Seq<u8>| #[trigger]
                names.contains(name) <==> w.folders.contains(p) && w.files.contains_key(
                    p.push(Part::Name(name)),
                ) && is_note_name(shown(name))
            &&& leads_to(
                sys,
                started(w, dir, sub, Task::ListNotes { sub }),
                ended_with(
                    w,
                    dir,
                    if w.files.contains_key(p) {
                        failed(sys.impossible)
                    } else {
                        done(
                            Outcome::Heads(
                                Seq::new(
                                    names.len(),
                                    |i: int|
                                        NoteHead {
                                            name: id_in(sub, shown(names[i])),
                                            modified_ms: time_of(
                                                w.files[p.push(Part::Name(names[i]))].modified,
                                            ),
                                            head: Seq::empty(),
                                        },
                                ),
                            ),
                        )
                    },
                ),
            )
        }),
{
    let p = target_of(dir, sub);
    let task = Task::ListNotes { sub };
    let s0 = ended_with(w, dir, resolved(dir, task, p));
    let heads = |ns: Names|
        Seq::new(
            ns.len(),
            |i: int|
                NoteHead {
                    name: id_in(sub, shown(ns[i])),
                    modified_ms: time_of(w.files[p.push(Part::Name(ns[i]))].modified),
                    head: Seq::<char>::empty(),
                },
        );
    let names = if w.folders.contains(p) {
        let list = (sys.lists)(w, p);
        assert(is_true_listing(sys, w, p, list));
        let ns = notes_so_far(sys, w, p, sub, list, list.len() as int);
        assert(list.take(list.len() as int) =~= list);
        assert forall|name: Seq<u8>| #[trigger] ns.contains(name) <==> w.files.contains_key(
            p.push(Part::Name(name)),
        ) && is_note_name(shown(name)) by {
            if w.files.contains_key(p.push(Part::Name(name))) {
                assert(is_child(w, p, name));
                assert(lists_name(list, name));
                assert(is_named(list, list.len() as int, name));
            }
        }
        ns
    } else {
        Names::empty()
    };
    let end = ended_with(
        w,
        dir,
        if w.files.contains_key(p) {
            failed(sys.impossible)
        } else {
            done(Outcome::Heads(heads(names)))
        },
    );
    if !w.folders.contains(p) {
        assert(heads(names) =~= Seq::empty());
    }
    assert(stepped(sys, s0) == end);
    leads_a_step(sys, s0);
    goes_on_from_there(sys, w, dir, sub, task, end);
    names
}

proof fn attachments_so_far(sys: System, w: World, p: Path, list: Listing, n: int) -> (names: Names)
    requires
        is_tidy(w),
        is_honest(sys),
        is_true_listing(sys, w, p, list),
        0 <= n <= list.len(),
    ensures
        names.no_duplicates(),
        forall|name: Seq<u8>| #[trigger]
            names.contains(name) <==> is_named(list, n, name) && w.files.contains_key(
                p.push(Part::Name(name)),
            ) && !(shown(name).len() > 0 && shown(name)[0] == '.'),
        attachments_in(list.take(n)) == Ok::<Seq<AttachmentView>, Seq<char>>(
            Seq::new(
                names.len(),
                |i: int|
                    AttachmentEntry {
                        name: shown(names[i]),
                        size: w.files[p.push(Part::Name(names[i]))].bytes.len() as u64,
                        modified_ms: time_of(w.files[p.push(Part::Name(names[i]))].modified),
                    },
            ),
        ),
    decreases n,
{
    let items = |ns: Names|
        Seq::new(
            ns.len(),
            |i: int|
                AttachmentEntry {
                    name: shown(ns[i]),
                    size: w.files[p.push(Part::Name(ns[i]))].bytes.len() as u64,
                    modified_ms: time_of(w.files[p.push(Part::Name(ns[i]))].modified),
                },
        );
    if n == 0 {
        assert(list.take(0) =~= Seq::empty());
        attachments_are_listed_one_by_one(Seq::empty(), list[0]);
        let none = Names::empty();
        assert(items(none) =~= Seq::empty());
        none
    } else {
        let before = attachments_so_far(sys, w, p, list, n - 1);
        let entry = list[n - 1];
        assert(list.take(n) =~= list.take(n - 1).push(entry));
        attachments_are_listed_one_by_one(list.take(n - 1), entry);
        match entry {
            Ok(e) => {
                assert(is_true_entry(sys, w, p, e));
                let file = p.push(Part::Name(e.name));
                assert forall|name: Seq<u8>| #[trigger] is_named(list, n, name) <==> is_named(
                    list,
                    n - 1,
                    name,
                ) || name == e.name by {
                    if is_named(list, n, name) {
                        let i = choose|i: int|
                            0 <= i < n && (#[trigger] list[i] matches Ok(x) && x.name == name);
                        if i < n - 1 {
                            assert(is_named(list, n - 1, name));
                        }
                    }
                    if is_named(list, n - 1, name) {
                        let i = choose|i: int|
                            0 <= i < n - 1 && (#[trigger] list[i] matches Ok(x) && x.name == name);
                        assert(list[i] matches Ok(x) && x.name == name);
                    }
                    if name == e.name {
                        assert(list[n - 1] matches Ok(x) && x.name == name);
                    }
                }
                assert(!is_named(list, n - 1, e.name)) by {
                    if is_named(list, n - 1, e.name) {
                        let i = choose|i: int|
                            0 <= i < n - 1 && (#[trigger] list[i] matches Ok(x) && x.name
                                == e.name);
                        assert(list[i] matches Ok(x) && x.name == e.name);
                        assert(list[n - 1] matches Ok(x) && x.name == e.name);
                    }
                }
                let text = shown(e.name);
                if w.files.contains_key(file) && !(text.len() > 0 && text[0] == '.') {
                    let all = before.push(e.name);
                    assert(!before.contains(e.name));
                    assert forall|name: Seq<u8>| #[trigger] all.contains(name) <==> before.contains(
                        name,
                    ) || name == e.name by {
                        if before.contains(name) {
                            let i = choose|i: int| 0 <= i < before.len() && before[i] == name;
                            assert(all[i] == name);
                        }
                        if name == e.name {
                            assert(all[before.len() as int] == name);
                        }
                    }
                    assert(items(all) =~= items(before).push(
                        AttachmentEntry {
                            name: text,
                            size: w.files[file].bytes.len() as u64,
                            modified_ms: time_of(w.files[file].modified),
                        },
                    ));
                    all
                } else {
                    before
                }
            },
            Err(_) => before,
        }
    }
}

/// Listing the attachments gives each file of the folder `Attachments` in the picked folder once,
/// unless its name begins with a dot: by its name, with its size and its last change. Where there is
/// no such folder there are none.
pub proof fn the_attachments_are_listed(sys: System, w: World, dir: Seq<char>) -> (names: Names)
    requires
        is_honest(sys),
        is_tidy(w),
        !is_blocked(w, root_of(dir).push(Part::Name(utf8("Attachments"@)))),
    ensures
        ({
            let p = root_of(dir).push(Part::Name(utf8("Attachments"@)));
            &&& names.no_duplicates()
            &&& forall|name: Seq<u8>| #[trigger]
                names.contains(name) <==> w.folders.contains(p) && w.files.contains_key(
                    p.push(Part::Name(name)),
                ) && !(shown(name).len() > 0 && shown(name)[0] == '.')
            &&& leads_to(
                sys,
                Running { world: w, job: attachments_job(dir) },
                ended_with(
                    w,
                    dir,
                    if w.files.contains_key(p) {
                        failed(sys.impossible)
                    } else {
                        done(
                            Outcome::Attachments(
                                Seq::new(
                                    names.len(),
                                    |i: int|
                                        AttachmentEntry {
                                            name: shown(names[i]),
                                            size: w.files[p.push(
                                                Part::Name(names[i]),
                                            )].bytes.len() as u64,
                                            modified_ms: time_of(
                                                w.files[p.push(Part::Name(names[i]))].modified,
                                            ),
                                        },
                                ),
                            ),
                        )
                    },
                ),
            )
        }),
{
    let p = root_of(dir).push(Part::Name(utf8("Attachments"@)));
    let s0 = Running { world: w, job: attachments_job(dir) };
    let items = |ns: Names|
        Seq::new(
            ns.len(),
            |i: int|
                AttachmentEntry {
                    name: shown(ns[i]),
                    size: w.files[p.push(Part::Name(ns[i]))].bytes.len() as u64,
                    modified_ms: time_of(w.files[p.push(Part::Name(ns[i]))].modified),
                },
        );
    let names = if w.folders.contains(p) {
        let list = (sys.lists)(w, p);
        assert(is_true_listing(sys, w, p, list));
        let ns = attachments_so_far(sys, w, p, list, list.len() as int);
        assert(list.take(list.len() as int) =~= list);
        assert forall|name: Seq<u8>| #[trigger] ns.contains(name) <==> w.files.contains_key(
            p.push(Part::Name(name)),
        ) && !(shown(name).len() > 0 && shown(name)[0] == '.') by {
            if w.files.contains_key(p.push(Part::Name(name))) {
                assert(is_child(w, p, name));
                assert(lists_name(list, name));
                assert(is_named(list, list.len() as int, name));
            }
        }
        ns
    } else {
        Names::empty()
    };
    let end = ended_with(
        w,
        dir,
        if w.files.contains_key(p) {
            failed(sys.impossible)
        } else {
            done(Outcome::Attachments(items(names)))
        },
    );
    if !w.folders.contains(p) {
        assert(items(names) =~= Seq::empty());
    }
    assert(stepped(sys, s0) == end);
    leads_a_step(sys, s0);
    names
}

} // verus!
