//! Watching the picked folder for changes made elsewhere: which changes matter, and which windows
//! are told.

use vstd::prelude::*;
use vstd::utf8::{decode_utf8, valid_utf8};

use crate::fsio::FileKind;
use crate::names::{is_md, is_note_name, is_skipped_dir, is_skipped_name, ATTACHMENTS_DIR};
use crate::path::{name_of, FsPath, Part, Path};
use crate::resolve::{staging_of, utf8, WRITE_TMP_SUFFIX};
use crate::text::{
    ends_with, precedes, same_text, text_from_utf8, text_order_is_total, text_order_is_transitive,
    text_precedes,
};

verus! {

/// Suffix of the file that a rename which only changes the case goes through.
pub const RENAME_TMP_SUFFIX: &'static str = ".rename-tmp";

/// Above this many changed paths in one batch no path is named: everything is to be refreshed.
pub const WATCH_MAX_PATHS: usize = 64;

/// The texts of the names from `from` on; none if one of the parts is no name or no text.
pub open spec fn name_texts(path: Path, from: int) -> Option<Seq<Seq<char>>>
    decreases path.len() - from,
{
    if from >= path.len() {
        Some(Seq::empty())
    } else {
        match (path[from], name_texts(path, from + 1)) {
            (Part::Name(name), Some(rest)) => if valid_utf8(name) {
                Some(seq![decode_utf8(name)] + rest)
            } else {
                None
            },
            _ => None,
        }
    }
}

/// The names of `path` below `root`.
pub open spec fn names_below(root: Path, path: Path) -> Option<Seq<Seq<char>>> {
    if root.is_prefix_of(path) {
        name_texts(path, root.len() as int)
    } else {
        None
    }
}

/// Whether one of the folders on the way is one that the walks leave alone.
pub open spec fn passes_skipped(names: Seq<Seq<char>>) -> bool {
    exists|i: int| 0 <= i < names.len() - 1 && is_skipped_name(#[trigger] names[i])
}

/// Whether a change at these names below the root matters to the notes. What the walks leave alone
/// does not, nor do attachments and the files that saves and renames go through. A note does, and
/// so does a folder; `on_disk` is what is there now, and where nothing is, it cannot be told what
/// was: that matters too.
pub open spec fn is_relevant(names: Seq<Seq<char>>, on_disk: Option<FileKind>) -> bool {
    let leaf = names.last();
    &&& names.len() > 0
    &&& !passes_skipped(names)
    &&& is_note_name(leaf) || !is_skipped_name(leaf)
    &&& names[0] != ATTACHMENTS_DIR@
    &&& !WRITE_TMP_SUFFIX@.is_suffix_of(leaf)
    &&& !RENAME_TMP_SUFFIX@.is_suffix_of(leaf)
    &&& is_note_name(leaf) || on_disk is None || on_disk == Some(FileKind::Dir)
}

/// The names with `/` between them.
pub open spec fn slash_joined(names: Seq<Seq<char>>) -> Seq<char>
    decreases names.len(),
{
    if names.len() == 0 {
        Seq::empty()
    } else if names.len() == 1 {
        names[0]
    } else {
        slash_joined(names.drop_last()).push('/') + names.last()
    }
}

/// The path below the root of a change that matters.
pub open spec fn watched(root: Path, path: Path, on_disk: Option<FileKind>) -> Option<Seq<char>> {
    match names_below(root, path) {
        Some(names) => if is_relevant(names, on_disk) {
            Some(slash_joined(names))
        } else {
            None
        },
        None => None,
    }
}

/// The texts of a list of strings.
pub open spec fn texts(list: Seq<String>) -> Seq<Seq<char>> {
    Seq::new(list.len(), |i: int| list[i]@)
}

fn names_from(path: &FsPath, from: usize) -> (res: Option<Vec<String>>)
    requires
        from <= path@.len(),
    ensures
        match res {
            Some(names) => name_texts(path@, from as int) == Some(texts(names@)),
            None => name_texts(path@, from as int) is None,
        },
    decreases path@.len() - from,
{
    if from == path.parts.len() {
        let none: Vec<String> = Vec::new();
        assert(texts(none@) =~= Seq::empty());
        return Some(none);
    }
    assert(path@[from as int] == path.parts@[from as int]@);
    match &path.parts[from] {
        Part::Name(name) => {
            match text_from_utf8(vstd::slice::slice_to_vec(name.as_slice())) {
                Some(first) => match names_from(path, from + 1) {
                    Some(rest) => {
                        let ghost tail = texts(rest@);
                        let ghost head = first@;
                        let mut names = rest;
                        names.insert(0, first);
                        assert(texts(names@) =~= seq![head] + tail);
                        Some(names)
                    },
                    None => None,
                },
                None => None,
            }
        },
        _ => None,
    }
}

fn join_with_slashes(names: &Vec<String>) -> (res: String)
    ensures
        res@ == slash_joined(texts(names@)),
{
    let ghost all = texts(names@);
    if names.len() == 0 {
        return String::new();
    }
    let mut out = names[0].clone();
    let mut i: usize = 1;
    assert(all.take(1).len() == 1 && all.take(1)[0] == all[0]);
    while i < names.len()
        invariant
            1 <= i <= names@.len(),
            all == texts(names@),
            out@ == slash_joined(all.take(i as int)),
        decreases names@.len() - i,
    {
        assert(all.take(i + 1).drop_last() == all.take(i as int));
        assert(all.take(i + 1).last() == all[i as int]);
        out.push('/');
        out = out.concat(names[i].as_str());
        i = i + 1;
    }
    assert(all.take(all.len() as int) == all);
    out
}

/// The path below the root, with `/` between the names, of a change that matters to the notes; no
/// path for any other change. `canon_root` has to be the real path of the watched folder, for the
/// changes are reported by real paths. `on_disk` is what is at `path` now, links not followed.
pub fn watch_rel_path(canon_root: &FsPath, path: &FsPath, on_disk: Option<FileKind>) -> (res:
    Option<String>)
    ensures
        match res {
            Some(rel) => watched(canon_root@, path@, on_disk) == Some(rel@),
            None => watched(canon_root@, path@, on_disk) is None,
        },
{
    if !path.starts_with(canon_root) {
        return None;
    }
    let names = match names_from(path, canon_root.parts.len()) {
        Some(names) => names,
        None => {
            return None;
        },
    };
    let ghost all = texts(names@);
    if names.len() == 0 {
        return None;
    }
    let last: usize = names.len() - 1;
    let mut i: usize = 0;
    while i < last
        invariant
            i <= last == names@.len() - 1,
            all == texts(names@),
            names_below(canon_root@, path@) == Some(all),
            forall|k: int| 0 <= k < i ==> !is_skipped_name(#[trigger] all[k]),
        decreases last - i,
    {
        if is_skipped_dir(names[i].as_str()) {
            assert(is_skipped_name(all[i as int]));
            assert(passes_skipped(all));
            return None;
        }
        i = i + 1;
    }
    assert(!passes_skipped(all));
    let leaf = names[last].as_str();
    assert(leaf@ == all.last());
    let note = is_md(leaf);
    if !note && is_skipped_dir(leaf) {
        return None;
    }
    if same_text(names[0].as_str(), ATTACHMENTS_DIR) {
        return None;
    }
    if ends_with(leaf, WRITE_TMP_SUFFIX) || ends_with(leaf, RENAME_TMP_SUFFIX) {
        return None;
    }
    if note {
        return Some(join_with_slashes(&names));
    }
    match on_disk {
        Some(kind) => if kind == FileKind::Dir {
            Some(join_with_slashes(&names))
        } else {
            None
        },
        None => Some(join_with_slashes(&names)),
    }
}

/// The texts of names are those of the parts of the path, one by one.
pub proof fn name_texts_are_the_names(path: Path, from: int, i: int)
    requires
        0 <= from <= i < path.len(),
    ensures
        name_texts(path, from) matches Some(names) ==> names.len() == path.len() - from && (
        path[i] matches Part::Name(name) && valid_utf8(name) && names[i - from] == decode_utf8(
            name,
        )),
    decreases path.len() - from,
{
    if from < i {
        name_texts_are_the_names(path, from + 1, i);
    } else if from + 1 < path.len() {
        name_texts_are_the_names(path, from + 1, from + 1);
    } else {
        assert(name_texts(path, from + 1) == Some(Seq::<Seq<char>>::empty()));
    }
}

proof fn text_ends_in_its_suffix(bytes: Seq<u8>, suffix: Seq<char>)
    requires
        valid_utf8(bytes + utf8(suffix)),
        suffix.len() > 0,
        '\0' <= suffix[0] <= '\u{7f}',
    ensures
        suffix.is_suffix_of(decode_utf8(bytes + utf8(suffix))),
{
    let all = bytes + utf8(suffix);
    let n = bytes.len() as int;
    vstd::utf8::encode_utf8_first_scalar(suffix);
    vstd::utf8::encode_utf8_valid_utf8(suffix);
    vstd::utf8::encode_utf8_decode_utf8(suffix);
    assert(all[n] == utf8(suffix)[0]);
    vstd::utf8::is_char_boundary_iff_is_leading_byte(all, n);
    vstd::utf8::decode_utf8_split(all, n);
    assert(all.subrange(n, all.len() as int) =~= utf8(suffix));
    let text = decode_utf8(all);
    assert(text.subrange(text.len() - suffix.len(), text.len() as int) =~= suffix);
}

/// The file that a save goes through is never told as a change, whatever is saved and whatever is
/// there now.
pub proof fn a_staging_file_is_never_told(root: Path, path: Path, on_disk: Option<FileKind>)
    ensures
        watched(root, staging_of(path), on_disk) is None,
{
    let staging = staging_of(path);
    if root.is_prefix_of(staging) && root.len() < staging.len() {
        name_texts_are_the_names(staging, root.len() as int, staging.len() - 1);
        if let Some(names) = names_below(root, staging) {
            let front = match name_of(path) {
                Some(name) => name,
                None => Seq::empty(),
            };
            reveal_strlit(".gn-tmp");
            assert(staging.last() == Part::Name(front + utf8(WRITE_TMP_SUFFIX@)));
            text_ends_in_its_suffix(front, WRITE_TMP_SUFFIX@);
        }
    }
}

/// One reported change: where, and what is there now.
pub struct WatchEvent {
    pub path: FsPath,
    pub on_disk: Option<FileKind>,
}

/// The paths below the root that these changes have to name.
pub open spec fn changed(root: Path, events: Seq<WatchEvent>) -> Set<Seq<char>> {
    Set::new(|rel: Seq<char>| has_change(root, events, rel))
}

/// Whether one of the changes is at `rel` and matters.
pub open spec fn has_change(root: Path, events: Seq<WatchEvent>, rel: Seq<char>) -> bool {
    exists|i: int|
        0 <= i < events.len() && watched(root, (#[trigger] events[i]).path@, events[i].on_disk)
            == Some(rel)
}

/// Whether the watched folder itself is among the changes: that is how a report says that changes
/// were lost.
pub open spec fn names_root(root: Path, events: Seq<WatchEvent>) -> bool {
    exists|i: int| 0 <= i < events.len() && (#[trigger] events[i]).path@ == root
}

/// Whether texts follow each other in their order, none twice.
pub open spec fn is_ascending(list: Seq<Seq<char>>) -> bool {
    forall|i: int, j: int| 0 <= i < j < list.len() ==> precedes(#[trigger] list[i], #[trigger] list[j])
}

/// Whether `list` holds the texts of `set`, each once and in order.
pub open spec fn is_sorted_list(list: Seq<Seq<char>>, set: Set<Seq<char>>) -> bool {
    &&& is_ascending(list)
    &&& forall|s: Seq<char>| #[trigger] set.contains(s) <==> list.contains(s)
}

/// A set has only one such list.
pub proof fn sorted_list_is_unique(a: Seq<Seq<char>>, b: Seq<Seq<char>>, set: Set<Seq<char>>)
    requires
        is_sorted_list(a, set),
        is_sorted_list(b, set),
    ensures
        a == b,
    decreases a.len(),
{
    if a.len() == 0 {
        if b.len() > 0 {
            assert(b.contains(b[0]));
            assert(set.contains(b[0]));
        }
        assert(a =~= b);
    } else if b.len() == 0 {
        assert(a.contains(a[0]));
        assert(set.contains(a[0]));
    } else {
        let x = a[0];
        let y = b[0];
        assert(a.contains(x));
        assert(set.contains(x));
        assert(b.contains(y));
        assert(set.contains(y));
        let i = choose|i: int| 0 <= i < b.len() && b[i] == x;
        let j = choose|j: int| 0 <= j < a.len() && a[j] == y;
        text_order_is_total(x, y);
        assert(x == y) by {
            if i > 0 {
                assert(precedes(b[0], b[i]));
            }
            if j > 0 {
                assert(precedes(a[0], a[j]));
            }
        }
        let rest = set.remove(x);
        rest_is_sorted(a, set);
        rest_is_sorted(b, set);
        sorted_list_is_unique(a.drop_first(), b.drop_first(), rest);
        assert(a =~= seq![x] + a.drop_first());
        assert(b =~= seq![x] + b.drop_first());
    }
}

proof fn rest_is_sorted(a: Seq<Seq<char>>, set: Set<Seq<char>>)
    requires
        is_sorted_list(a, set),
        a.len() > 0,
    ensures
        is_sorted_list(a.drop_first(), set.remove(a[0])),
{
    let rest = a.drop_first();
    assert forall|i: int, j: int| 0 <= i < j < rest.len() implies precedes(
        #[trigger] rest[i],
        #[trigger] rest[j],
    ) by {
        assert(rest[i] == a[i + 1] && rest[j] == a[j + 1]);
    }
    assert forall|s: Seq<char>| #[trigger] set.remove(a[0]).contains(s) <==> rest.contains(s) by {
        if rest.contains(s) {
            let k = choose|k: int| 0 <= k < rest.len() && rest[k] == s;
            assert(a[k + 1] == s);
            assert(a.contains(s));
            assert(set.contains(s));
            assert(precedes(a[0], a[k + 1]));
            text_order_is_total(s, s);
        }
        if set.remove(a[0]).contains(s) {
            assert(set.contains(s));
            let k = choose|k: int| 0 <= k < a.len() && a[k] == s;
            assert(rest[k - 1] == s);
        }
    }
}

/// Puts `text` in its place in an ascending list, unless it is there already.
fn insert_sorted(list: &mut Vec<String>, text: String)
    requires
        is_ascending(texts(old(list)@)),
    ensures
        is_ascending(texts(final(list)@)),
        forall|s: Seq<char>| #[trigger]
            texts(final(list)@).contains(s) <==> (texts(old(list)@).contains(s) || s == text@),
{
    let ghost before = texts(list@);
    let mut i: usize = 0;
    while i < list.len() && text_precedes(list[i].as_str(), text.as_str())
        invariant
            i <= list@.len(),
            before == texts(list@),
            forall|k: int| 0 <= k < i ==> precedes(#[trigger] before[k], text@),
        decreases list@.len() - i,
    {
        i = i + 1;
    }
    if i < list.len() && same_text(list[i].as_str(), text.as_str()) {
        assert(before[i as int] == text@);
        assert(before.contains(text@));
        return;
    }
    let ghost new = text@;
    proof {
        if i < before.len() {
            text_order_is_total(before[i as int], new);
        }
    }
    list.insert(i, text);
    let ghost after = texts(list@);
    proof {
        assert(after =~= before.insert(i as int, new));
        assert forall|a: int, b: int| 0 <= a < b < after.len() implies precedes(
            #[trigger] after[a],
            #[trigger] after[b],
        ) by {
            if a < i && b == i {
                assert(after[a] == before[a]);
            } else if a == i {
                assert(after[b] == before[b - 1]);
                if b - 1 > i {
                    assert(precedes(before[i as int], before[b - 1]));
                    text_order_is_transitive(new, before[i as int], before[b - 1]);
                }
            } else {
                let x = if a < i {
                    a
                } else {
                    a - 1
                };
                let y = if b < i {
                    b
                } else {
                    b - 1
                };
                assert(after[a] == before[x] && after[b] == before[y]);
            }
        }
        assert forall|s: Seq<char>| #[trigger] after.contains(s) <==> (before.contains(s) || s
            == new) by {
            if before.contains(s) {
                let k = choose|k: int| 0 <= k < before.len() && before[k] == s;
                let x = if k < i {
                    k
                } else {
                    k + 1
                };
                assert(after[x] == s);
            }
            if s == new {
                assert(after[i as int] == s);
            }
            if after.contains(s) {
                let k = choose|k: int| 0 <= k < after.len() && after[k] == s;
                if k != i {
                    let x = if k < i {
                        k
                    } else {
                        k - 1
                    };
                    assert(before[x] == s);
                }
            }
        }
    }
}

/// The paths of all changes that matter, each once and in order.
fn sorted_changes(canon_root: &FsPath, events: &Vec<WatchEvent>) -> (res: Vec<String>)
    ensures
        is_sorted_list(texts(res@), changed(canon_root@, events@)),
{
    let mut out: Vec<String> = Vec::new();
    let mut i: usize = 0;
    assert(texts(out@) =~= Seq::empty());
    while i < events.len()
        invariant
            i <= events@.len(),
            is_ascending(texts(out@)),
            forall|s: Seq<char>| #[trigger]
                texts(out@).contains(s) <==> has_change(canon_root@, events@.take(i as int), s),
        decreases events@.len() - i,
    {
        let ghost seen = events@.take(i as int);
        let ghost more = events@.take(i + 1);
        let ghost before = texts(out@);
        let event = &events[i];
        let rel = watch_rel_path(canon_root, &event.path, event.on_disk);
        let ghost found = watched(canon_root@, event.path@, event.on_disk);
        if let Some(text) = rel {
            insert_sorted(&mut out, text);
        }
        proof {
            assert forall|s: Seq<char>| #[trigger]
                texts(out@).contains(s) <==> has_change(canon_root@, more, s) by {
                if has_change(canon_root@, seen, s) {
                    let k = choose|k: int|
                        0 <= k < seen.len() && watched(
                            canon_root@,
                            (#[trigger] seen[k]).path@,
                            seen[k].on_disk,
                        ) == Some(s);
                    assert(more[k] == seen[k]);
                }
                if has_change(canon_root@, more, s) {
                    let k = choose|k: int|
                        0 <= k < more.len() && watched(
                            canon_root@,
                            (#[trigger] more[k]).path@,
                            more[k].on_disk,
                        ) == Some(s);
                    if k < i {
                        assert(seen[k] == more[k]);
                        assert(before.contains(s));
                    } else {
                        assert(more[k] == events@[i as int]);
                    }
                }
                if found == Some(s) {
                    assert(more[i as int] == events@[i as int]);
                }
                assert(before.contains(s) <==> has_change(canon_root@, seen, s));
            }
        }
        i = i + 1;
    }
    assert(events@.take(events@.len() as int) == events@);
    out
}

fn reports_root(canon_root: &FsPath, events: &Vec<WatchEvent>) -> (res: bool)
    ensures
        res == names_root(canon_root@, events@),
{
    let mut i: usize = 0;
    while i < events.len()
        invariant
            i <= events@.len(),
            forall|k: int| 0 <= k < i ==> (#[trigger] events@[k]).path@ != canon_root@,
        decreases events@.len() - i,
    {
        if events[i].path.same(canon_root) {
            return true;
        }
        i = i + 1;
    }
    false
}

/// Whether `told` is what a batch of changes has to be told as: nothing where no change matters;
/// no path at all, for "everything may have changed", where changes were lost or there are too
/// many; else the paths of the changes that matter, each once and in order.
pub open spec fn is_told_as(
    root: Path,
    batch: Result<Seq<WatchEvent>, ()>,
    told: Option<Seq<Seq<char>>>,
) -> bool {
    match batch {
        Err(_) => told == Some(Seq::<Seq<char>>::empty()),
        Ok(events) => if names_root(root, events) {
            told == Some(Seq::<Seq<char>>::empty())
        } else {
            exists|all: Seq<Seq<char>>| #[trigger]
                is_sorted_list(all, changed(root, events)) && told == told_list(all)
        },
    }
}

/// What the changes at these paths are told as.
pub open spec fn told_list(all: Seq<Seq<char>>) -> Option<Seq<Seq<char>>> {
    if all.len() == 0 {
        None
    } else if all.len() > WATCH_MAX_PATHS {
        Some(Seq::empty())
    } else {
        Some(all)
    }
}

/// The events of a batch.
pub open spec fn batch_view(batch: Result<Vec<WatchEvent>, ()>) -> Result<Seq<WatchEvent>, ()> {
    match batch {
        Ok(events) => Ok(events@),
        Err(_) => Err(()),
    }
}

/// A batch of changes can be told in one way only.
pub proof fn telling_is_determined(
    root: Path,
    batch: Result<Seq<WatchEvent>, ()>,
    a: Option<Seq<Seq<char>>>,
    b: Option<Seq<Seq<char>>>,
)
    requires
        is_told_as(root, batch, a),
        is_told_as(root, batch, b),
    ensures
        a == b,
{
    if let Ok(events) = batch {
        if !names_root(root, events) {
            let set = changed(root, events);
            let all_a = choose|all: Seq<Seq<char>>| #[trigger]
                is_sorted_list(all, set) && a == told_list(all);
            let all_b = choose|all: Seq<Seq<char>>| #[trigger]
                is_sorted_list(all, set) && b == told_list(all);
            sorted_list_is_unique(all_a, all_b, set);
        }
    }
}

/// What a batch of reported changes is told as; an error in place of a batch means that changes
/// may have been lost.
pub fn changes_to_tell(canon_root: &FsPath, batch: &Result<Vec<WatchEvent>, ()>) -> (res: Option<
    Vec<String>,
>)
    ensures
        is_told_as(
            canon_root@,
            batch_view(*batch),
            match res {
                Some(paths) => Some(texts(paths@)),
                None => None,
            },
        ),
{
    let everything: Vec<String> = Vec::new();
    assert(texts(everything@) =~= Seq::<Seq<char>>::empty());
    match batch {
        Err(_) => Some(everything),
        Ok(events) => {
            if reports_root(canon_root, events) {
                return Some(everything);
            }
            let all = sorted_changes(canon_root, events);
            if all.len() == 0 {
                None
            } else if all.len() > WATCH_MAX_PATHS {
                Some(everything)
            } else {
                Some(all)
            }
        },
    }
}

} // verus!
