//! What a walk finds, said of each path on its own.

use vstd::prelude::*;

use crate::fsio::{is_evicted, modified_of, Entry, Fault, FileKind, Listing, Reply, Request};
use crate::job_laws::is_genuine_listing;
use crate::names::is_note_name;
use crate::path::{is_file_name, pushed_text, Part, Path};
use crate::text::shown;
use crate::walk::{id_of, is_barred, look, todos, FoundView, Look, Todo, TodoView, WalkKind};
use crate::walk_laws::{
    body_request, collected, collected_all, collected_one, StillDisk,
};

verus! {

/// The names on the way from the root to an entry.
pub type Names = Seq<Seq<u8>>;

/// The path of the entry with these names below `root`.
pub open spec fn path_at(root: Path, names: Names) -> Path
    decreases names.len(),
{
    if names.len() == 0 {
        root
    } else {
        path_at(root, names.drop_last()).push(Part::Name(names.last()))
    }
}

/// The text of the names with `/` between them.
pub open spec fn rel_at(names: Names) -> Seq<u8>
    decreases names.len(),
{
    if names.len() == 0 {
        Seq::empty()
    } else {
        pushed_text(rel_at(names.drop_last()), names.last())
    }
}

/// What the folder `dir` holds; nothing where it cannot be read.
pub open spec fn entries_of(disk: StillDisk, dir: Path) -> Listing {
    match disk(Request::ReadDir(dir)) {
        Reply::Entries(Ok(list)) => list,
        _ => Seq::empty(),
    }
}

/// Whether the entry is one of this name and kind.
pub open spec fn is_of(entry: Result<Entry, Fault>, name: Seq<u8>, kind: FileKind) -> bool {
    entry matches Ok(e) && e.name == name && e.kind == Ok::<FileKind, Fault>(kind)
}

/// Whether the folder `dir` holds an entry of this name and kind. A link is of a kind of its own.
pub open spec fn has_entry(disk: StillDisk, dir: Path, name: Seq<u8>, kind: FileKind) -> bool {
    exists|i: int|
        0 <= i < entries_of(disk, dir).len() && is_of(#[trigger] entries_of(disk, dir)[i], name, kind)
}

/// Whether these names lead from the root to a folder through folders alone, none of them barred
/// and none a link.
pub open spec fn is_folder_at(disk: StillDisk, root: Path, names: Names) -> bool
    decreases names.len(),
{
    names.len() == 0 || {
        &&& is_folder_at(disk, root, names.drop_last())
        &&& has_entry(disk, path_at(root, names.drop_last()), names.last(), FileKind::Dir)
        &&& !is_barred(names.len() == 1, shown(names.last()))
    }
}

/// Whether these names lead to a note: a regular file with a note's name, in a folder that is
/// reached through no link and no barred folder.
pub open spec fn is_note_at(disk: StillDisk, root: Path, names: Names) -> bool {
    &&& names.len() > 0
    &&& is_folder_at(disk, root, names.drop_last())
    &&& has_entry(disk, path_at(root, names.drop_last()), names.last(), FileKind::File)
    &&& is_note_name(shown(names.last()))
}

/// Whether a walk of this kind is to find the entry with these names.
pub open spec fn is_sought(disk: StillDisk, kind: WalkKind, root: Path, names: Names) -> bool {
    if kind == WalkKind::Folders {
        names.len() > 0 && is_folder_at(disk, root, names)
    } else {
        is_note_at(disk, root, names)
    }
}

/// Whether no name occurs twice in a folder.
pub open spec fn has_distinct_names(list: Listing) -> bool {
    forall|i: int, j: int|
        #![trigger list[i], list[j]]
        0 <= i < list.len() && 0 <= j < list.len() && (list[i] matches Ok(a) && (
        list[j] matches Ok(b) && a.name == b.name)) ==> i == j
}

/// Whether every folder holds entries with names that an entry can have, no name twice.
pub open spec fn is_genuine_disk(disk: StillDisk) -> bool {
    forall|dir: Path|
        is_genuine_listing(#[trigger] entries_of(disk, dir)) && has_distinct_names(
            entries_of(disk, dir),
        )
}

/// Whether each of the names is one that an entry can have.
pub open spec fn are_file_names(names: Names) -> bool {
    forall|i: int| 0 <= i < names.len() ==> is_file_name(#[trigger] names[i])
}

/// The entry of the folder with these names, as a walk looks at it.
pub open spec fn todo_at(root: Path, names: Names, entry: Result<Entry, Fault>) -> TodoView {
    Todo { dir: path_at(root, names), rel: rel_at(names), entry }
}

/// The names of all finds in the folder with these names, in the order in which a walk comes to
/// them.
pub open spec fn finds_in(
    disk: StillDisk,
    kind: WalkKind,
    root: Path,
    names: Names,
    depth: nat,
) -> Seq<Names>
    decreases depth, 0nat, 0nat,
{
    if depth == 0 {
        Seq::empty()
    } else {
        finds_in_all(
            disk,
            kind,
            root,
            names,
            entries_of(disk, path_at(root, names)),
            (depth - 1) as nat,
        )
    }
}

/// The names of all finds in these entries.
pub open spec fn finds_in_all(
    disk: StillDisk,
    kind: WalkKind,
    root: Path,
    names: Names,
    list: Listing,
    depth: nat,
) -> Seq<Names>
    decreases depth, list.len(), 2nat,
{
    if list.len() == 0 {
        Seq::empty()
    } else {
        finds_in_one(disk, kind, root, names, list[0], depth) + finds_in_all(
            disk,
            kind,
            root,
            names,
            list.drop_first(),
            depth,
        )
    }
}

/// The names of all finds in this entry.
pub open spec fn finds_in_one(
    disk: StillDisk,
    kind: WalkKind,
    root: Path,
    names: Names,
    entry: Result<Entry, Fault>,
    depth: nat,
) -> Seq<Names>
    decreases depth, 0nat, 1nat,
{
    match (entry, look(kind, todo_at(root, names, entry))) {
        (Ok(e), Look::List { .. }) => seq![names.push(e.name)],
        (Ok(e), Look::Read { .. }) => seq![names.push(e.name)],
        (Ok(e), Look::Enter { .. }) => (if kind == WalkKind::Folders {
            seq![names.push(e.name)]
        } else {
            Seq::empty()
        }) + finds_in(disk, kind, root, names.push(e.name), depth),
        _ => Seq::empty(),
    }
}

/// Whether `find` is what the entry with these names is found as: by its id; and a note with the
/// time of its last change and the part of its content that the walk reads, or none where the
/// content is evicted.
pub open spec fn is_found_as(
    disk: StillDisk,
    kind: WalkKind,
    root: Path,
    names: Names,
    find: FoundView,
) -> bool {
    &&& names.len() > 0
    &&& find.rel == id_of(rel_at(names))
    &&& kind != WalkKind::Folders ==> is_read_as(disk, kind, root, names, find)
}

/// Whether a note is found with its time and content.
pub open spec fn is_read_as(
    disk: StillDisk,
    kind: WalkKind,
    root: Path,
    names: Names,
    find: FoundView,
) -> bool {
    exists|i: int|
        is_read_from(
            disk,
            kind,
            path_at(root, names),
            #[trigger] entries_of(disk, path_at(root, names.drop_last()))[i],
            names.last(),
            find,
        ) && 0 <= i < entries_of(disk, path_at(root, names.drop_last())).len()
}

/// Whether a note is found with the time that its entry shows, and with the part of its content
/// that a walk of this kind reads.
pub open spec fn is_read_from(
    disk: StillDisk,
    kind: WalkKind,
    path: Path,
    entry: Result<Entry, Fault>,
    name: Seq<u8>,
    find: FoundView,
) -> bool {
    entry matches Ok(e) && e.name == name && (e.meta matches Ok(meta) && find.modified_ms
        == modified_of(meta) && if is_evicted(meta) {
        find.body == Seq::<char>::empty()
    } else {
        disk(body_request(kind, path)) matches Reply::Bytes(Ok(bytes)) && find.body == shown(bytes)
    })
}

/// Whether the finds are what the entries with these names are found as, one by one.
pub open spec fn are_found_as(
    disk: StillDisk,
    kind: WalkKind,
    root: Path,
    paths: Seq<Names>,
    found: Seq<FoundView>,
) -> bool {
    paths.len() == found.len() && forall|i: int|
        0 <= i < paths.len() ==> is_found_as(disk, kind, root, #[trigger] paths[i], found[i])
}

proof fn found_together(
    disk: StillDisk,
    kind: WalkKind,
    root: Path,
    a: Seq<Names>,
    fa: Seq<FoundView>,
    b: Seq<Names>,
    fb: Seq<FoundView>,
)
    requires
        are_found_as(disk, kind, root, a, fa),
        are_found_as(disk, kind, root, b, fb),
    ensures
        are_found_as(disk, kind, root, a + b, fa + fb),
{
    let all = a + b;
    let found = fa + fb;
    assert forall|i: int| 0 <= i < all.len() implies is_found_as(
        disk,
        kind,
        root,
        #[trigger] all[i],
        found[i],
    ) by {
        if i < a.len() {
            assert(all[i] == a[i] && found[i] == fa[i]);
        } else {
            assert(all[i] == b[i - a.len()] && found[i] == fb[i - a.len()]);
        }
    }
}

proof fn deeper(root: Path, names: Names, name: Seq<u8>)
    ensures
        path_at(root, names.push(name)) == path_at(root, names).push(Part::Name(name)),
        rel_at(names.push(name)) == pushed_text(rel_at(names), name),
{
    assert(names.push(name).drop_last() =~= names);
}

/// What a walk collects is what the names of its finds are found as.
proof fn collected_is_found(
    disk: StillDisk,
    kind: WalkKind,
    root: Path,
    names: Names,
    depth: nat,
)
    ensures
        collected(disk, kind, path_at(root, names), rel_at(names), depth) matches Some(Ok(found))
            ==> are_found_as(disk, kind, root, finds_in(disk, kind, root, names, depth), found),
    decreases depth, 0nat, 0nat,
{
    let dir = path_at(root, names);
    if depth > 0 {
        if let Reply::Entries(Ok(list)) = disk(Request::ReadDir(dir)) {
            collected_all_is_found(disk, kind, root, names, list, 0, (depth - 1) as nat);
            assert(list.skip(0) =~= list);
        }
    }
}

proof fn collected_all_is_found(
    disk: StillDisk,
    kind: WalkKind,
    root: Path,
    names: Names,
    list: Listing,
    from: int,
    depth: nat,
)
    requires
        0 <= from <= list.len(),
        list == entries_of(disk, path_at(root, names)),
    ensures
        collected_all(
            disk,
            kind,
            todos(path_at(root, names), rel_at(names), list.skip(from)),
            depth,
        ) matches Some(Ok(found)) ==> are_found_as(
            disk,
            kind,
            root,
            finds_in_all(disk, kind, root, names, list.skip(from), depth),
            found,
        ),
    decreases depth, list.len() - from, 2nat,
{
    let dir = path_at(root, names);
    let rest = list.skip(from);
    let todo = todos(dir, rel_at(names), rest);
    if rest.len() > 0 {
        assert(rest.drop_first() =~= list.skip(from + 1));
        assert(todo.drop_first() =~= todos(dir, rel_at(names), list.skip(from + 1)));
        assert(todo[0] == todo_at(root, names, list[from]));
        assert(rest[0] == list[from]);
        collected_one_is_found(disk, kind, root, names, list, from, depth);
        collected_all_is_found(disk, kind, root, names, list, from + 1, depth);
        let one = collected_one(disk, kind, todo[0], depth);
        let more = collected_all(disk, kind, todo.drop_first(), depth);
        if let (Some(Ok(a)), Some(Ok(b))) = (one, more) {
            found_together(
                disk,
                kind,
                root,
                finds_in_one(disk, kind, root, names, list[from], depth),
                a,
                finds_in_all(disk, kind, root, names, list.skip(from + 1), depth),
                b,
            );
        }
    }
}

proof fn collected_one_is_found(
    disk: StillDisk,
    kind: WalkKind,
    root: Path,
    names: Names,
    list: Listing,
    i: int,
    depth: nat,
)
    requires
        0 <= i < list.len(),
        list == entries_of(disk, path_at(root, names)),
    ensures
        collected_one(disk, kind, todo_at(root, names, list[i]), depth) matches Some(Ok(found))
            ==> are_found_as(
            disk,
            kind,
            root,
            finds_in_one(disk, kind, root, names, list[i], depth),
            found,
        ),
    decreases depth, 0nat, 1nat,
{
    let entry = list[i];
    let todo = todo_at(root, names, entry);
    if let Ok(e) = entry {
        let below = names.push(e.name);
        deeper(root, names, e.name);
        assert(below.drop_last() =~= names);
        assert(below.last() == e.name);
        match look(kind, todo) {
            Look::List { .. } | Look::Read { .. } => {
                if let Some(Ok(found)) = collected_one(disk, kind, todo, depth) {
                    assert(is_read_from(
                        disk,
                        kind,
                        path_at(root, below),
                        entries_of(disk, path_at(root, below.drop_last()))[i],
                        below.last(),
                        found[0],
                    ));
                    assert(is_found_as(disk, kind, root, below, found[0]));
                }
            },
            Look::Enter { dir, rel } => {
                collected_is_found(disk, kind, root, below, depth);
                let first = crate::walk::folder_find(kind, rel);
                let inner = collected(disk, kind, dir, rel, depth);
                if let Some(Ok(more)) = inner {
                    let own = if kind == WalkKind::Folders {
                        seq![below]
                    } else {
                        Seq::empty()
                    };
                    assert(are_found_as(disk, kind, root, own, first));
                    found_together(
                        disk,
                        kind,
                        root,
                        own,
                        first,
                        finds_in(disk, kind, root, below, depth),
                        more,
                    );
                }
            },
            _ => {},
        }
    }
}

proof fn in_all_if_in_one(
    disk: StillDisk,
    kind: WalkKind,
    root: Path,
    names: Names,
    list: Listing,
    depth: nat,
    p: Names,
)
    ensures
        finds_in_all(disk, kind, root, names, list, depth).contains(p) <==> exists|i: int|
            0 <= i < list.len() && finds_in_one(
                disk,
                kind,
                root,
                names,
                #[trigger] list[i],
                depth,
            ).contains(p),
    decreases list.len(),
{
    if list.len() > 0 {
        let rest = list.drop_first();
        let one = finds_in_one(disk, kind, root, names, list[0], depth);
        let more = finds_in_all(disk, kind, root, names, rest, depth);
        let all = one + more;
        in_all_if_in_one(disk, kind, root, names, rest, depth, p);
        if one.contains(p) {
            let k = choose|k: int| 0 <= k < one.len() && one[k] == p;
            assert(all[k] == p);
        }
        if more.contains(p) {
            let k = choose|k: int| 0 <= k < more.len() && more[k] == p;
            assert(all[one.len() + k] == p);
            let i = choose|i: int|
                0 <= i < rest.len() && finds_in_one(
                    disk,
                    kind,
                    root,
                    names,
                    #[trigger] rest[i],
                    depth,
                ).contains(p);
            assert(list[i + 1] == rest[i]);
        }
        if all.contains(p) {
            let k = choose|k: int| 0 <= k < all.len() && all[k] == p;
            if k < one.len() {
                assert(one[k] == p);
            } else {
                assert(more[k - one.len()] == p);
            }
        }
        if exists|i: int|
            0 <= i < list.len() && finds_in_one(
                disk,
                kind,
                root,
                names,
                #[trigger] list[i],
                depth,
            ).contains(p) {
            let i = choose|i: int|
                0 <= i < list.len() && finds_in_one(
                    disk,
                    kind,
                    root,
                    names,
                    #[trigger] list[i],
                    depth,
                ).contains(p);
            if i > 0 {
                assert(rest[i - 1] == list[i]);
            }
        }
    }
}

proof fn each_is_collected(disk: StillDisk, kind: WalkKind, todo: Seq<TodoView>, depth: nat, i: int)
    requires
        collected_all(disk, kind, todo, depth) matches Some(Ok(_)),
        0 <= i < todo.len(),
    ensures
        collected_one(disk, kind, todo[i], depth) matches Some(Ok(_)),
    decreases todo.len(),
{
    if i > 0 {
        each_is_collected(disk, kind, todo.drop_first(), depth, i - 1);
        assert(todo.drop_first()[i - 1] == todo[i]);
    }
}

proof fn folders_on_the_way(disk: StillDisk, root: Path, names: Names, k: int)
    requires
        is_folder_at(disk, root, names),
        0 <= k <= names.len(),
    ensures
        is_folder_at(disk, root, names.take(k)),
    decreases names.len(),
{
    if k == names.len() {
        assert(names.take(k) =~= names);
    } else {
        folders_on_the_way(disk, root, names.drop_last(), k);
        assert(names.drop_last().take(k) =~= names.take(k));
    }
}

proof fn text_shows_the_root(names: Names)
    requires
        are_file_names(names),
    ensures
        rel_at(names).len() == 0 <==> names.len() == 0,
{
    if names.len() > 0 {
        assert(is_file_name(names[names.len() - 1]));
    }
}

/// A walk over the folder with these names finds what is to be found below it, and nothing else.
proof fn finds_are_sought(
    disk: StillDisk,
    kind: WalkKind,
    root: Path,
    names: Names,
    depth: nat,
    p: Names,
)
    requires
        is_genuine_disk(disk),
        are_file_names(names),
        is_folder_at(disk, root, names),
        collected(disk, kind, path_at(root, names), rel_at(names), depth) matches Some(Ok(_)),
    ensures
        finds_in(disk, kind, root, names, depth).contains(p) <==> (names.is_prefix_of(p) && p.len()
            > names.len() && is_sought(disk, kind, root, p)),
    decreases depth, 1nat,
{
    let dir = path_at(root, names);
    let list = entries_of(disk, dir);
    let less = (depth - 1) as nat;
    let todo = todos(dir, rel_at(names), list);
    in_all_if_in_one(disk, kind, root, names, list, less, p);
    text_shows_the_root(names);
    assert(is_genuine_listing(list));
    assert forall|i: int| 0 <= i < list.len() implies (#[trigger] list[i] matches Ok(e) && (
    collected_one(disk, kind, todo_at(root, names, list[i]), less) matches Some(Ok(_))
        && is_file_name(e.name))) by {
        each_is_collected(disk, kind, todo, less, i);
        assert(todo[i] == todo_at(root, names, list[i]));
    }
    if finds_in(disk, kind, root, names, depth).contains(p) {
        let i = choose|i: int|
            0 <= i < list.len() && finds_in_one(
                disk,
                kind,
                root,
                names,
                #[trigger] list[i],
                less,
            ).contains(p);
        a_find_is_sought(disk, kind, root, names, depth, i, p);
    }
    if names.is_prefix_of(p) && p.len() > names.len() && is_sought(disk, kind, root, p) {
        what_is_sought_is_found(disk, kind, root, names, depth, p);
        let i = choose|i: int|
            0 <= i < list.len() && finds_in_one(
                disk,
                kind,
                root,
                names,
                #[trigger] list[i],
                less,
            ).contains(p);
        assert(0 <= i < list.len());
    }
}

proof fn below_is_named(names: Names, name: Seq<u8>)
    requires
        are_file_names(names),
        is_file_name(name),
    ensures
        are_file_names(names.push(name)),
        names.push(name).drop_last() == names,
        names.is_prefix_of(names.push(name)),
{
    let below = names.push(name);
    assert(below.drop_last() =~= names);
    assert(below.subrange(0, names.len() as int) =~= names);
    assert forall|i: int| 0 <= i < below.len() implies is_file_name(#[trigger] below[i]) by {
        if i < names.len() {
            assert(below[i] == names[i]);
        }
    }
}

proof fn a_find_is_sought(
    disk: StillDisk,
    kind: WalkKind,
    root: Path,
    names: Names,
    depth: nat,
    i: int,
    p: Names,
)
    requires
        is_genuine_disk(disk),
        depth > 0,
        are_file_names(names),
        is_folder_at(disk, root, names),
        0 <= i < entries_of(disk, path_at(root, names)).len(),
        entries_of(disk, path_at(root, names))[i] matches Ok(e) && is_file_name(e.name),
        collected_one(
            disk,
            kind,
            todo_at(root, names, entries_of(disk, path_at(root, names))[i]),
            (depth - 1) as nat,
        ) matches Some(Ok(_)),
        finds_in_one(
            disk,
            kind,
            root,
            names,
            entries_of(disk, path_at(root, names))[i],
            (depth - 1) as nat,
        ).contains(p),
    ensures
        names.is_prefix_of(p),
        p.len() > names.len(),
        is_sought(disk, kind, root, p),
    decreases depth, 0nat,
{
    let entry = entries_of(disk, path_at(root, names))[i];
    let less = (depth - 1) as nat;
    text_shows_the_root(names);
    if let Ok(e) = entry {
        let below = names.push(e.name);
        deeper(root, names, e.name);
        below_is_named(names, e.name);
        match look(kind, todo_at(root, names, entry)) {
            Look::List { .. } | Look::Read { .. } => {
                assert(p == below);
                assert(is_of(entry, e.name, FileKind::File));
                assert(is_note_at(disk, root, p));
            },
            Look::Enter { .. } => {
                assert(is_of(entry, e.name, FileKind::Dir));
                assert(is_folder_at(disk, root, below));
                finds_are_sought(disk, kind, root, below, less, p);
                let own = if kind == WalkKind::Folders {
                    seq![below]
                } else {
                    Seq::empty()
                };
                let inner = finds_in(disk, kind, root, below, less);
                let all = own + inner;
                let k = choose|k: int| 0 <= k < all.len() && all[k] == p;
                if k >= own.len() {
                    assert(inner[k - own.len()] == p);
                    assert(p.subrange(0, names.len() as int) =~= below.subrange(
                        0,
                        names.len() as int,
                    ));
                } else {
                    assert(p == below);
                }
            },
            _ => {},
        }
    }
}

proof fn what_is_sought_is_found(
    disk: StillDisk,
    kind: WalkKind,
    root: Path,
    names: Names,
    depth: nat,
    p: Names,
)
    requires
        is_genuine_disk(disk),
        are_file_names(names),
        is_folder_at(disk, root, names),
        collected(disk, kind, path_at(root, names), rel_at(names), depth) matches Some(Ok(_)),
        names.is_prefix_of(p),
        p.len() > names.len(),
        is_sought(disk, kind, root, p),
    ensures
        depth > 0,
        exists|i: int|
            0 <= i < entries_of(disk, path_at(root, names)).len() && finds_in_one(
                disk,
                kind,
                root,
                names,
                #[trigger] entries_of(disk, path_at(root, names))[i],
                (depth - 1) as nat,
            ).contains(p),
    decreases depth, 0nat,
{
    let dir = path_at(root, names);
    let list = entries_of(disk, dir);
    let less = (depth - 1) as nat;
    let todo = todos(dir, rel_at(names), list);
    let n = names.len() as int;
    let name = p[n];
    let below = names.push(name);
    assert(below =~= p.take(n + 1));
    assert(below.drop_last() =~= names);
    deeper(root, names, name);
    text_shows_the_root(names);
    assert(is_genuine_listing(list));
    if p.len() == n + 1 {
        assert(p =~= below);
        assert(p.drop_last() =~= names);
    } else if kind == WalkKind::Folders {
        folders_on_the_way(disk, root, p, n + 1);
    } else {
        folders_on_the_way(disk, root, p.drop_last(), n + 1);
        assert(p.drop_last().take(n + 1) =~= below);
    }
    let what = if p.len() == n + 1 && kind != WalkKind::Folders {
        FileKind::File
    } else {
        FileKind::Dir
    };
    assert(has_entry(disk, dir, name, what));
    let i = choose|i: int|
        0 <= i < entries_of(disk, dir).len() && is_of(
            #[trigger] entries_of(disk, dir)[i],
            name,
            what,
        );
    each_is_collected(disk, kind, todo, less, i);
    assert(todo[i] == todo_at(root, names, list[i]));
    let one = finds_in_one(disk, kind, root, names, list[i], less);
    if what == FileKind::File {
        assert(one =~= seq![below]);
        assert(one[0] == p);
    } else {
        assert(look(kind, todo_at(root, names, list[i])) is Enter);
        let own = if kind == WalkKind::Folders {
            seq![below]
        } else {
            Seq::empty()
        };
        let inner = finds_in(disk, kind, root, below, less);
        assert(one == own + inner);
        if p.len() == n + 1 {
            assert(one[0] == p);
        } else {
            assert(list[i] matches Ok(e) && is_file_name(e.name));
            below_is_named(names, name);
            assert(below.is_prefix_of(p)) by {
                assert(p.subrange(0, n + 1) =~= below);
            }
            finds_are_sought(disk, kind, root, below, less, p);
            let k = choose|k: int| 0 <= k < inner.len() && inner[k] == p;
            assert(one[own.len() + k] == p);
        }
    }
}

/// What is found in an entry lies at it or below it.
proof fn finds_lie_below(
    disk: StillDisk,
    kind: WalkKind,
    root: Path,
    names: Names,
    depth: nat,
    p: Names,
)
    requires
        finds_in(disk, kind, root, names, depth).contains(p),
    ensures
        names.is_prefix_of(p),
        p.len() > names.len(),
    decreases depth, 1nat,
{
    let list = entries_of(disk, path_at(root, names));
    let less = (depth - 1) as nat;
    in_all_if_in_one(disk, kind, root, names, list, less, p);
    let i = choose|i: int|
        0 <= i < list.len() && finds_in_one(
            disk,
            kind,
            root,
            names,
            #[trigger] list[i],
            less,
        ).contains(p);
    finds_in_one_lie_below(disk, kind, root, names, list[i], less, p);
    if let Ok(e) = list[i] {
        let below = names.push(e.name);
        assert(p.subrange(0, names.len() as int) =~= below.subrange(0, names.len() as int));
        assert(below.subrange(0, names.len() as int) =~= names);
    }
}

proof fn finds_in_one_lie_below(
    disk: StillDisk,
    kind: WalkKind,
    root: Path,
    names: Names,
    entry: Result<Entry, Fault>,
    depth: nat,
    p: Names,
)
    requires
        finds_in_one(disk, kind, root, names, entry, depth).contains(p),
    ensures
        entry matches Ok(e) && names.push(e.name).is_prefix_of(p),
    decreases depth, 2nat,
{
    if let Ok(e) = entry {
        let below = names.push(e.name);
        assert(below.subrange(0, below.len() as int) =~= below);
        if look(kind, todo_at(root, names, entry)) is Enter {
            let own = if kind == WalkKind::Folders {
                seq![below]
            } else {
                Seq::empty()
            };
            let inner = finds_in(disk, kind, root, below, depth);
            let all = own + inner;
            let k = choose|k: int| 0 <= k < all.len() && all[k] == p;
            if k >= own.len() {
                assert(inner[k - own.len()] == p);
                if depth > 0 {
                    finds_lie_below(disk, kind, root, below, depth, p);
                }
            }
        }
    }
}

/// No entry is found twice.
proof fn finds_are_distinct(
    disk: StillDisk,
    kind: WalkKind,
    root: Path,
    names: Names,
    depth: nat,
)
    requires
        is_genuine_disk(disk),
    ensures
        finds_in(disk, kind, root, names, depth).no_duplicates(),
    decreases depth, 0nat, 0nat,
{
    if depth > 0 {
        let list = entries_of(disk, path_at(root, names));
        assert(has_distinct_names(list));
        finds_in_all_are_distinct(disk, kind, root, names, list, 0, (depth - 1) as nat);
        assert(list.skip(0) =~= list);
    }
}

proof fn finds_in_all_are_distinct(
    disk: StillDisk,
    kind: WalkKind,
    root: Path,
    names: Names,
    list: Listing,
    from: int,
    depth: nat,
)
    requires
        is_genuine_disk(disk),
        has_distinct_names(list),
        0 <= from <= list.len(),
    ensures
        finds_in_all(disk, kind, root, names, list.skip(from), depth).no_duplicates(),
    decreases depth, list.len() - from, 2nat,
{
    let rest = list.skip(from);
    if rest.len() > 0 {
        let later = list.skip(from + 1);
        assert(rest.drop_first() =~= later);
        assert(rest[0] == list[from]);
        let one = finds_in_one(disk, kind, root, names, list[from], depth);
        let more = finds_in_all(disk, kind, root, names, later, depth);
        finds_in_one_are_distinct(disk, kind, root, names, list[from], depth);
        finds_in_all_are_distinct(disk, kind, root, names, list, from + 1, depth);
        let all = one + more;
        assert forall|x: int, y: int|
            0 <= x < one.len() && 0 <= y < more.len() implies one[x] != more[y] by {
            let p = one[x];
            if p == more[y] {
                assert(one.contains(p) && more.contains(p));
                in_all_if_in_one(disk, kind, root, names, later, depth, p);
                let i = choose|i: int|
                    0 <= i < later.len() && finds_in_one(
                        disk,
                        kind,
                        root,
                        names,
                        #[trigger] later[i],
                        depth,
                    ).contains(p);
                finds_in_one_lie_below(disk, kind, root, names, list[from], depth, p);
                finds_in_one_lie_below(disk, kind, root, names, later[i], depth, p);
                assert(later[i] == list[from + 1 + i]);
                if let (Ok(a), Ok(b)) = (list[from], list[from + 1 + i]) {
                    let n = names.len() as int;
                    assert(names.push(a.name)[n] == p[n]);
                    assert(names.push(b.name)[n] == p[n]);
                }
            }
        }
        assert(all.no_duplicates()) by {
            assert forall|x: int, y: int|
                0 <= x < all.len() && 0 <= y < all.len() && x != y implies all[x] != all[y] by {
                if x < one.len() && y >= one.len() {
                    assert(all[y] == more[y - one.len()]);
                } else if y < one.len() && x >= one.len() {
                    assert(all[x] == more[x - one.len()]);
                } else if x >= one.len() {
                    assert(all[x] == more[x - one.len()] && all[y] == more[y - one.len()]);
                }
            }
        }
    }
}

proof fn finds_in_one_are_distinct(
    disk: StillDisk,
    kind: WalkKind,
    root: Path,
    names: Names,
    entry: Result<Entry, Fault>,
    depth: nat,
)
    requires
        is_genuine_disk(disk),
    ensures
        finds_in_one(disk, kind, root, names, entry, depth).no_duplicates(),
    decreases depth, 0nat, 1nat,
{
    if let Ok(e) = entry {
        let below = names.push(e.name);
        if look(kind, todo_at(root, names, entry)) is Enter {
            finds_are_distinct(disk, kind, root, below, depth);
            let inner = finds_in(disk, kind, root, below, depth);
            if inner.contains(below) {
                finds_lie_below(disk, kind, root, below, depth, below);
            }
            let own = if kind == WalkKind::Folders {
                seq![below]
            } else {
                Seq::empty()
            };
            let all = own + inner;
            assert forall|x: int, y: int|
                0 <= x < all.len() && 0 <= y < all.len() && x != y implies all[x] != all[y] by {
                if x >= own.len() {
                    assert(inner.contains(inner[x - own.len()]));
                }
                if y >= own.len() {
                    assert(inner.contains(inner[y - own.len()]));
                }
            }
        }
    }
}

/// Whether what lies in a folder comes behind the folder.
pub open spec fn is_outermost_first(paths: Seq<Names>) -> bool {
    forall|i: int, j: int|
        #![trigger paths[i], paths[j]]
        0 <= i < paths.len() && 0 <= j < paths.len() && paths[i].is_prefix_of(paths[j])
            && paths[i].len() < paths[j].len() ==> i < j
}

proof fn finds_are_outermost_first(
    disk: StillDisk,
    kind: WalkKind,
    root: Path,
    names: Names,
    depth: nat,
)
    requires
        is_genuine_disk(disk),
    ensures
        is_outermost_first(finds_in(disk, kind, root, names, depth)),
    decreases depth, 0nat, 0nat,
{
    if depth > 0 {
        let list = entries_of(disk, path_at(root, names));
        assert(has_distinct_names(list));
        finds_in_all_are_outermost_first(disk, kind, root, names, list, 0, (depth - 1) as nat);
        assert(list.skip(0) =~= list);
    }
}

proof fn finds_in_all_are_outermost_first(
    disk: StillDisk,
    kind: WalkKind,
    root: Path,
    names: Names,
    list: Listing,
    from: int,
    depth: nat,
)
    requires
        is_genuine_disk(disk),
        has_distinct_names(list),
        0 <= from <= list.len(),
    ensures
        is_outermost_first(finds_in_all(disk, kind, root, names, list.skip(from), depth)),
    decreases depth, list.len() - from, 2nat,
{
    let rest = list.skip(from);
    if rest.len() > 0 {
        let later = list.skip(from + 1);
        assert(rest.drop_first() =~= later);
        assert(rest[0] == list[from]);
        let one = finds_in_one(disk, kind, root, names, list[from], depth);
        let more = finds_in_all(disk, kind, root, names, later, depth);
        finds_in_one_are_outermost_first(disk, kind, root, names, list[from], depth);
        finds_in_all_are_outermost_first(disk, kind, root, names, list, from + 1, depth);
        let all = one + more;
        assert forall|x: int, y: int|
            0 <= x < one.len() && 0 <= y < more.len() implies !more[y].is_prefix_of(one[x]) by {
            let p = one[x];
            let q = more[y];
            assert(one.contains(p) && more.contains(q));
            in_all_if_in_one(disk, kind, root, names, later, depth, q);
            let i = choose|i: int|
                0 <= i < later.len() && finds_in_one(
                    disk,
                    kind,
                    root,
                    names,
                    #[trigger] later[i],
                    depth,
                ).contains(q);
            finds_in_one_lie_below(disk, kind, root, names, list[from], depth, p);
            finds_in_one_lie_below(disk, kind, root, names, later[i], depth, q);
            assert(later[i] == list[from + 1 + i]);
            if let (Ok(a), Ok(b)) = (list[from], list[from + 1 + i]) {
                let n = names.len() as int;
                assert(names.push(a.name)[n] == p[n]);
                assert(names.push(b.name)[n] == q[n]);
            }
        }
        assert forall|i: int, j: int|
            #![trigger all[i], all[j]]
            0 <= i < all.len() && 0 <= j < all.len() && all[i].is_prefix_of(all[j]) && all[i].len()
                < all[j].len() implies i < j by {
            if i < one.len() && j < one.len() {
                assert(all[i] == one[i] && all[j] == one[j]);
            } else if i >= one.len() && j >= one.len() {
                assert(all[i] == more[i - one.len()] && all[j] == more[j - one.len()]);
            } else if i >= one.len() {
                assert(all[i] == more[i - one.len()] && all[j] == one[j]);
            }
        }
    }
}

proof fn finds_in_one_are_outermost_first(
    disk: StillDisk,
    kind: WalkKind,
    root: Path,
    names: Names,
    entry: Result<Entry, Fault>,
    depth: nat,
)
    requires
        is_genuine_disk(disk),
    ensures
        is_outermost_first(finds_in_one(disk, kind, root, names, entry, depth)),
    decreases depth, 0nat, 1nat,
{
    if let Ok(e) = entry {
        let below = names.push(e.name);
        if look(kind, todo_at(root, names, entry)) is Enter {
            finds_are_outermost_first(disk, kind, root, below, depth);
            let inner = finds_in(disk, kind, root, below, depth);
            let own = if kind == WalkKind::Folders {
                seq![below]
            } else {
                Seq::empty()
            };
            let all = own + inner;
            assert forall|i: int, j: int|
                #![trigger all[i], all[j]]
                0 <= i < all.len() && 0 <= j < all.len() && all[i].is_prefix_of(all[j])
                    && all[i].len() < all[j].len() implies i < j by {
                if i >= own.len() {
                    assert(all[i] == inner[i - own.len()]);
                    assert(inner.contains(all[i]));
                    if j < own.len() {
                        finds_lie_below(disk, kind, root, below, depth, all[i]);
                    } else {
                        assert(all[j] == inner[j - own.len()]);
                    }
                }
            }
        }
    }
}

/// Whether `paths` are the names of all that a walk is to find, each once.
pub open spec fn is_all_sought(
    disk: StillDisk,
    kind: WalkKind,
    root: Path,
    paths: Seq<Names>,
) -> bool {
    &&& paths.no_duplicates()
    &&& forall|p: Names| #[trigger] paths.contains(p) <==> is_sought(disk, kind, root, p)
}

/// Over a disk that stands still a walk finds every note that is a regular file reached through no
/// link and no barred folder (or every folder so reached), finds nothing else, and finds nothing
/// twice. Each is found by its id; a note with its time and the part of its content that was asked
/// for, or none where the content is evicted.
pub proof fn a_walk_finds_each_note_once(
    disk: StillDisk,
    kind: WalkKind,
    root: Path,
    depth: nat,
    found: Seq<FoundView>,
)
    requires
        is_genuine_disk(disk),
        collected(disk, kind, root, Seq::empty(), depth) == Some(
            Ok::<Seq<FoundView>, Seq<char>>(found),
        ),
    ensures
        exists|paths: Seq<Names>| #[trigger]
            is_all_sought(disk, kind, root, paths) && are_found_as(disk, kind, root, paths, found),
{
    let paths = finds_in(disk, kind, root, Seq::empty(), depth);
    collected_finds(disk, kind, root, depth);
    assert(is_all_sought(disk, kind, root, paths));
}

/// Over a disk that stands still a walk for folders lists each folder before the folders in it.
pub proof fn a_folder_is_listed_before_its_subfolders(
    disk: StillDisk,
    root: Path,
    depth: nat,
    found: Seq<FoundView>,
)
    requires
        is_genuine_disk(disk),
        collected(disk, WalkKind::Folders, root, Seq::empty(), depth) == Some(
            Ok::<Seq<FoundView>, Seq<char>>(found),
        ),
    ensures
        exists|paths: Seq<Names>| #[trigger]
            is_all_sought(disk, WalkKind::Folders, root, paths) && are_found_as(
                disk,
                WalkKind::Folders,
                root,
                paths,
                found,
            ) && is_outermost_first(paths),
{
    let paths = finds_in(disk, WalkKind::Folders, root, Seq::empty(), depth);
    collected_finds(disk, WalkKind::Folders, root, depth);
    finds_are_outermost_first(disk, WalkKind::Folders, root, Seq::empty(), depth);
    assert(is_all_sought(disk, WalkKind::Folders, root, paths));
}

/// What a walk collects are the finds with the names in `finds_in`, and these are all that it is to
/// find, each once.
pub proof fn collected_finds(disk: StillDisk, kind: WalkKind, root: Path, depth: nat)
    requires
        is_genuine_disk(disk),
        collected(disk, kind, root, Seq::empty(), depth) matches Some(Ok(_)),
    ensures
        is_all_sought(disk, kind, root, finds_in(disk, kind, root, Seq::empty(), depth)),
        collected(disk, kind, root, Seq::empty(), depth) matches Some(Ok(found)) && are_found_as(
            disk,
            kind,
            root,
            finds_in(disk, kind, root, Seq::empty(), depth),
            found,
        ),
{
    let paths = finds_in(disk, kind, root, Seq::empty(), depth);
    collected_is_found(disk, kind, root, Seq::empty(), depth);
    finds_are_distinct(disk, kind, root, Seq::empty(), depth);
    assert forall|p: Names| #[trigger] paths.contains(p) <==> is_sought(disk, kind, root, p) by {
        finds_are_sought(disk, kind, root, Seq::empty(), depth, p);
        assert(p.subrange(0, 0) =~= Seq::empty());
    }
}

} // verus!
