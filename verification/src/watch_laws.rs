//! Which changes are told, in plain terms.

use vstd::prelude::*;

use crate::fsio::FileKind;
use crate::names::{is_note_name, is_skipped_name};
use crate::path::{Part, Path};
use crate::resolve::{utf8, WRITE_TMP_SUFFIX};
use crate::text::precedes;
use crate::watch::{
    changed, has_change, is_relevant, is_sorted_list, is_told_as, name_texts,
    name_texts_are_the_names, names_below, names_root, passes_skipped, slash_joined, told_list,
    watched, WatchEvent, RENAME_TMP_SUFFIX,
};

verus! {

/// The path with these names below `root`.
pub open spec fn placed(root: Path, names: Seq<Seq<char>>) -> Path {
    root + names.map_values(|name: Seq<char>| Part::Name(utf8(name)))
}

proof fn names_are_read_off(path: Path, names: Seq<Seq<char>>, from: int)
    requires
        0 <= from <= path.len(),
        path.len() - from == names.len(),
        forall|i: int| 0 <= i < names.len() ==> path[from + i] == Part::Name(utf8(#[trigger] names[i])),
    ensures
        name_texts(path, from) == Some(names),
    decreases names.len(),
{
    if names.len() == 0 {
        assert(names =~= Seq::empty());
    } else {
        let rest = names.drop_first();
        assert forall|i: int| 0 <= i < rest.len() implies path[from + 1 + i] == Part::Name(
            utf8(#[trigger] rest[i]),
        ) by {
            assert(rest[i] == names[i + 1]);
            assert(path[from + (i + 1)] == Part::Name(utf8(names[i + 1])));
        }
        names_are_read_off(path, rest, from + 1);
        assert(path[from + 0] == Part::Name(utf8(names[0])));
        vstd::utf8::encode_utf8_valid_utf8(names[0]);
        vstd::utf8::encode_utf8_decode_utf8(names[0]);
        assert(seq![names[0]] + rest =~= names);
    }
}

proof fn placed_names_are_read_off(root: Path, names: Seq<Seq<char>>)
    ensures
        names_below(root, placed(root, names)) == Some(names),
{
    let path = placed(root, names);
    assert(path.subrange(0, root.len() as int) =~= root);
    names_are_read_off(path, names, root.len() as int);
}

/// Whether none of the folders on the way is one that the walks leave alone.
pub open spec fn is_in_sight(names: Seq<Seq<char>>) -> bool {
    forall|i: int| 0 <= i < names.len() - 1 ==> !is_skipped_name(#[trigger] names[i])
}

/// Whether a name is one that a save or a rename goes through.
pub open spec fn is_passing(name: Seq<char>) -> bool {
    exists|stem: Seq<char>|
        name == #[trigger] (stem + ".gn-tmp"@) || name == stem + ".rename-tmp"@
}

proof fn passing_names_end_so(name: Seq<char>)
    ensures
        is_passing(name) <==> WRITE_TMP_SUFFIX@.is_suffix_of(name) || RENAME_TMP_SUFFIX@.is_suffix_of(
            name,
        ),
{
    let write = ".gn-tmp"@;
    let rename = ".rename-tmp"@;
    if write.is_suffix_of(name) {
        let stem = name.take(name.len() - write.len());
        assert(name =~= stem + write);
        assert(is_passing(name));
    }
    if rename.is_suffix_of(name) {
        let stem = name.take(name.len() - rename.len());
        assert(name =~= stem + rename);
        assert((stem + write).len() == stem.len() + write.len());
        assert(is_passing(name));
    }
    if is_passing(name) {
        let stem = choose|stem: Seq<char>|
            name == #[trigger] (stem + ".gn-tmp"@) || name == stem + ".rename-tmp"@;
        if name == stem + write {
            assert(name.subrange(name.len() - write.len(), name.len() as int) =~= write);
        } else {
            assert(name.subrange(name.len() - rename.len(), name.len() as int) =~= rename);
        }
    }
}

/// A change at any list of names, at any depth, that passes no skipped folder, is not in the
/// attachments folder, and whose last name is neither skipped nor one that a save or a rename goes
/// through, is told whenever nothing is there now or a folder is. It is told by its names.
pub proof fn a_folder_that_comes_or_goes_is_told(
    root: Path,
    names: Seq<Seq<char>>,
    on_disk: Option<FileKind>,
)
    requires
        names.len() > 0,
        is_in_sight(names),
        names[0] != "Attachments"@,
        !is_skipped_name(names.last()),
        !is_passing(names.last()),
        on_disk is None || on_disk == Some(FileKind::Dir),
    ensures
        watched(root, placed(root, names), on_disk) == Some(slash_joined(names)),
{
    placed_names_are_read_off(root, names);
    passing_names_end_so(names.last());
}

/// A change of a note, at any depth, is told whatever is there now.
pub proof fn a_note_that_changes_is_told(
    root: Path,
    names: Seq<Seq<char>>,
    on_disk: Option<FileKind>,
)
    requires
        names.len() > 0,
        is_in_sight(names),
        names[0] != "Attachments"@,
        is_note_name(names.last()),
    ensures
        watched(root, placed(root, names), on_disk) == Some(slash_joined(names)),
{
    placed_names_are_read_off(root, names);
    let leaf = names.last();
    reveal_strlit(".md");
    reveal_strlit(".MD");
    reveal_strlit(".gn-tmp");
    reveal_strlit(".rename-tmp");
    assert(leaf.last() == 'd' || leaf.last() == 'D') by {
        let end = leaf.subrange(leaf.len() - 3, leaf.len() as int);
        assert(end[2] == leaf.last());
    }
    if WRITE_TMP_SUFFIX@.is_suffix_of(leaf) {
        let end = leaf.subrange(leaf.len() - 7, leaf.len() as int);
        assert(end[6] == leaf.last());
    }
    if RENAME_TMP_SUFFIX@.is_suffix_of(leaf) {
        let end = leaf.subrange(leaf.len() - 11, leaf.len() as int);
        assert(end[10] == leaf.last());
    }
}

/// No other change is told: none of the picked folder itself, none behind a skipped folder, none in
/// the attachments folder, none of a file that a save or a rename goes through, none of a skipped
/// name that is no note, and none of a file that is no note.
pub proof fn other_changes_are_not_told(
    root: Path,
    names: Seq<Seq<char>>,
    on_disk: Option<FileKind>,
)
    requires
        ({
            ||| names.len() == 0
            ||| !is_in_sight(names)
            ||| names[0] == "Attachments"@
            ||| is_passing(names.last())
            ||| (!is_note_name(names.last()) && is_skipped_name(names.last()))
            ||| (!is_note_name(names.last()) && (on_disk matches Some(kind) && kind
                != FileKind::Dir))
        }),
    ensures
        watched(root, placed(root, names), on_disk) is None,
{
    placed_names_are_read_off(root, names);
    if names.len() > 0 {
        passing_names_end_so(names.last());
        if !is_in_sight(names) {
            let i = choose|i: int| 0 <= i < names.len() - 1 && is_skipped_name(#[trigger] names[i]);
            assert(is_skipped_name(names[i]));
            assert(passes_skipped(names));
        }
    }
}

/// A change at a path that is not below the watched folder, or that has a part which is no name or
/// no text, is not told; any other path is one of names.
pub proof fn only_texts_below_the_folder_are_told(
    root: Path,
    path: Path,
    on_disk: Option<FileKind>,
    rel: Seq<char>,
)
    requires
        watched(root, path, on_disk) == Some(rel),
    ensures
        exists|names: Seq<Seq<char>>|
            path == #[trigger] placed(root, names) && rel == slash_joined(names),
{
    let names = names_below(root, path)->Some_0;
    let n = root.len() as int;
    let there = placed(root, names);
    if n < path.len() {
        name_texts_are_the_names(path, n, n);
    } else {
        assert(names =~= Seq::empty());
    }
    assert(path =~= there) by {
        assert(path.subrange(0, n) == root);
        assert forall|i: int| 0 <= i < path.len() implies path[i] == there[i] by {
            if i < n {
                assert(path.subrange(0, n)[i] == path[i]);
            } else {
                name_texts_are_the_names(path, n, i);
                if let Part::Name(name) = path[i] {
                    vstd::utf8::decode_utf8_encode_utf8(name);
                }
            }
        }
    }
    assert(is_relevant(names, on_disk));
}

/// A batch that was lost, or that names the watched folder itself, is told as "anything may have
/// changed".
pub proof fn lost_changes_are_told_as_everything(
    root: Path,
    events: Seq<WatchEvent>,
    i: int,
    told: Option<Seq<Seq<char>>>,
)
    ensures
        is_told_as(root, Err(()), told) ==> told == Some(Seq::<Seq<char>>::empty()),
        0 <= i < events.len() && events[i].path@ == root && is_told_as(root, Ok(events), told)
            ==> told == Some(Seq::<Seq<char>>::empty()),
{
    if 0 <= i < events.len() && events[i].path@ == root {
        assert(names_root(root, events));
    }
}

/// Whether one of the changes has to be told by this text.
pub open spec fn is_to_tell(root: Path, events: Seq<WatchEvent>, rel: Seq<char>) -> bool {
    exists|i: int|
        0 <= i < events.len() && watched(root, (#[trigger] events[i]).path@, events[i].on_disk)
            == Some(rel)
}

/// Any other batch is told by the texts of its changes: each is told once, in ascending order, and
/// nothing else is. Only where there are more than 64 of them "anything may have changed" is told in
/// their place, and only where there is none nothing is told.
pub proof fn a_batch_is_told_by_its_changes(
    root: Path,
    events: Seq<WatchEvent>,
    told: Option<Seq<Seq<char>>>,
    many: Seq<Seq<char>>,
)
    requires
        forall|i: int| 0 <= i < events.len() ==> (#[trigger] events[i]).path@ != root,
        is_told_as(root, Ok(events), told),
    ensures
        told is None <==> forall|rel: Seq<char>| !#[trigger] is_to_tell(root, events, rel),
        told matches Some(list) ==> list.len() > 0 ==> {
            &&& list.len() <= 64
            &&& forall|rel: Seq<char>|
                #![trigger is_to_tell(root, events, rel)]
                #![trigger list.contains(rel)]
                list.contains(rel) <==> is_to_tell(root, events, rel)
            &&& forall|i: int, j: int|
                0 <= i < j < list.len() ==> precedes(#[trigger] list[i], #[trigger] list[j])
        },
        many.len() > 64 && many.no_duplicates() && (forall|i: int|
            0 <= i < many.len() ==> is_to_tell(root, events, #[trigger] many[i])) ==> told == Some(
            Seq::<Seq<char>>::empty(),
        ),
        told == Some(Seq::<Seq<char>>::empty()) ==> exists|all: Seq<Seq<char>>|
            {
                &&& #[trigger] all.len() > 64
                &&& forall|i: int, j: int|
                    0 <= i < j < all.len() ==> precedes(#[trigger] all[i], #[trigger] all[j])
                &&& forall|i: int| 0 <= i < all.len() ==> is_to_tell(root, events, #[trigger] all[i])
            },
{
    assert(!names_root(root, events));
    let set = changed(root, events);
    let all = choose|all: Seq<Seq<char>>| #[trigger]
        is_sorted_list(all, set) && told == told_list(all);
    assert(is_sorted_list(all, set) && told == told_list(all));
    assert forall|rel: Seq<char>| #[trigger] is_to_tell(root, events, rel) <==> all.contains(rel) by {
        assert(set.contains(rel) <==> has_change(root, events, rel));
    }
    assert forall|i: int| 0 <= i < all.len() implies is_to_tell(root, events, #[trigger] all[i]) by {
        assert(all.contains(all[i]));
    }
    if all.len() > 0 {
        assert(is_to_tell(root, events, all[0]));
    }
    if told is None {
        assert forall|rel: Seq<char>| !#[trigger] is_to_tell(root, events, rel) by {
            assert(is_to_tell(root, events, rel) <==> all.contains(rel));
        }
    }
    if many.len() > 64 && many.no_duplicates() && (forall|i: int|
        0 <= i < many.len() ==> is_to_tell(root, events, #[trigger] many[i])) {
        many.unique_seq_to_set();
        all.lemma_cardinality_of_set();
        assert(many.to_set().subset_of(all.to_set())) by {
            assert forall|rel: Seq<char>| many.to_set().contains(rel) implies all.to_set().contains(
                rel,
            ) by {
                let i = choose|i: int| 0 <= i < many.len() && many[i] == rel;
                assert(is_to_tell(root, events, many[i]));
            }
        }
        vstd::set_lib::lemma_len_subset(many.to_set(), all.to_set());
    }
}

} // verus!
