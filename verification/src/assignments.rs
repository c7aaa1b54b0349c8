//! Which window shows which workspace and which note: looking assignments up and changing them.

use vstd::prelude::*;

use crate::string_map::{is_key_list, StringMap};
use crate::text::{same_text, starts_with};

verus! {

/// What the labels of windows that show a single note begin with.
pub const NOTE_WINDOW_PREFIX: &'static str = "note-";

/// Stands between the workspace and the note in the mark of a note window that is being opened.
pub const PENDING_SEPARATOR: char = '\u{1f}';

/// For each window the workspace, or the note, that it shows.
pub type Assignments = Map<Seq<char>, Seq<char>>;

/// Whether a window with this label shows a single note.
pub open spec fn is_note_label(label: Seq<char>) -> bool {
    NOTE_WINDOW_PREFIX@.is_prefix_of(label)
}

/// Whether the window `label` shows `what`.
pub open spec fn is_assigned(map: Assignments, label: Seq<char>, what: Seq<char>) -> bool {
    map.contains_key(label) && map[label] == what
}

/// Whether the window `label`, which is not `exclude`, shows the workspace `ws` as a whole: a
/// window with a single note does not.
pub open spec fn shows_workspace(
    labels: Assignments,
    label: Seq<char>,
    ws: Seq<char>,
    exclude: Option<Seq<char>>,
) -> bool {
    is_assigned(labels, label, ws) && !is_note_label(label) && exclude != Some(label)
}

/// Whether the window `label` shows the note `note` of the workspace `ws`.
pub open spec fn shows_note(
    labels: Assignments,
    notes: Assignments,
    label: Seq<char>,
    ws: Seq<char>,
    note: Seq<char>,
) -> bool {
    is_assigned(notes, label, note) && is_assigned(labels, label, ws)
}

/// Whether no window shows the workspace.
pub open spec fn is_shown_nowhere(
    labels: Assignments,
    ws: Seq<char>,
    exclude: Option<Seq<char>>,
) -> bool {
    forall|l: Seq<char>| !#[trigger] shows_workspace(labels, l, ws, exclude)
}

/// Whether no window shows the note.
pub open spec fn note_is_shown_nowhere(
    labels: Assignments,
    notes: Assignments,
    ws: Seq<char>,
    note: Seq<char>,
) -> bool {
    forall|l: Seq<char>| !#[trigger] shows_note(labels, notes, l, ws, note)
}

/// The text, where there is one.
pub open spec fn text_of(s: Option<&str>) -> Option<Seq<char>> {
    match s {
        Some(text) => Some(text@),
        None => None,
    }
}

/// The mark of a window for a note that is being opened.
pub open spec fn pending_key(ws: Seq<char>, note: Seq<char>) -> Seq<char> {
    ws.push(PENDING_SEPARATOR) + note
}

/// Marks of note windows cannot be mistaken, neither for each other nor for the id of a
/// workspace, as long as no id holds the separator.
pub proof fn pending_keys_do_not_collide(
    ws: Seq<char>,
    note: Seq<char>,
    other_ws: Seq<char>,
    other_note: Seq<char>,
)
    requires
        !ws.contains(PENDING_SEPARATOR),
        !other_ws.contains(PENDING_SEPARATOR),
    ensures
        pending_key(ws, note) != other_ws,
        pending_key(ws, note) == pending_key(other_ws, other_note) ==> ws == other_ws && note
            == other_note,
{
    let key = pending_key(ws, note);
    assert(key[ws.len() as int] == PENDING_SEPARATOR);
    if key == pending_key(other_ws, other_note) {
        assert(key[other_ws.len() as int] == PENDING_SEPARATOR);
        if ws.len() < other_ws.len() {
            assert(other_ws[ws.len() as int] == key[ws.len() as int]);
        }
        if other_ws.len() < ws.len() {
            assert(ws[other_ws.len() as int] == key[other_ws.len() as int]);
        }
        assert(ws =~= other_ws) by {
            assert forall|i: int| 0 <= i < ws.len() implies ws[i] == other_ws[i] by {
                assert(key[i] == ws[i]);
                assert(key[i] == other_ws[i]);
            }
        }
        assert(note =~= other_note) by {
            assert(key.len() == ws.len() + 1 + note.len());
            assert(key.len() == other_ws.len() + 1 + other_note.len());
            assert forall|i: int| 0 <= i < note.len() implies note[i] == other_note[i] by {
                assert(key[ws.len() + 1 + i] == note[i]);
                assert(key[ws.len() + 1 + i] == other_note[i]);
            }
        }
    }
}

/// The mark of a window for the note `note_id` of the workspace `ws_id` that is being opened.
pub fn note_pending_key(ws_id: &str, note_id: &str) -> (res: String)
    ensures
        res@ == pending_key(ws_id@, note_id@),
{
    let mut out: String = ws_id.to_owned();
    out.push(PENDING_SEPARATOR);
    out.concat(note_id)
}

fn is_assigned_to(map: &StringMap<String>, label: &str, what: &str) -> (res: bool)
    ensures
        res == is_assigned(map@, label@, what@),
{
    match map.get(label) {
        Some(value) => same_text(value.as_str(), what),
        None => false,
    }
}

/// A window that shows the workspace `ws_id` as a whole, other than `exclude`; which one, if there
/// are several, is left open.
pub fn window_label_for_workspace(map: &StringMap<String>, ws_id: &str, exclude: Option<&str>) -> (res:
    Option<String>)
    ensures
        match res {
            Some(label) => shows_workspace(map@, label@, ws_id@, text_of(exclude)),
            None => is_shown_nowhere(map@, ws_id@, text_of(exclude)),
        },
{
    let ghost left_out = text_of(exclude);
    let keys = map.keys();
    let mut i: usize = 0;
    while i < keys.len()
        invariant
            i <= keys@.len(),
            is_key_list(map@, keys@),
            left_out == text_of(exclude),
            forall|k: int|
                0 <= k < i ==> !shows_workspace(map@, (#[trigger] keys@[k])@, ws_id@, left_out),
        decreases keys@.len() - i,
    {
        let label = keys[i].as_str();
        let excluded = match exclude {
            Some(other) => same_text(label, other),
            None => false,
        };
        if !starts_with(label, NOTE_WINDOW_PREFIX) && is_assigned_to(map, label, ws_id) && !excluded
        {
            return Some(keys[i].clone());
        }
        i = i + 1;
    }
    proof {
        assert forall|label: Seq<char>| !#[trigger] shows_workspace(
            map@,
            label,
            ws_id@,
            left_out,
        ) by {
            if map@.contains_key(label) {
                let k = choose|k: int| 0 <= k < keys@.len() && (#[trigger] keys@[k])@ == label;
                assert(!shows_workspace(map@, keys@[k]@, ws_id@, left_out));
            }
        }
    }
    None
}

/// A window that shows the note `note_id` of the workspace `ws_id`; which one, if there are
/// several, is left open.
pub fn window_label_for_note(
    labels: &StringMap<String>,
    notes: &StringMap<String>,
    ws_id: &str,
    note_id: &str,
) -> (res: Option<String>)
    ensures
        match res {
            Some(label) => shows_note(labels@, notes@, label@, ws_id@, note_id@),
            None => note_is_shown_nowhere(labels@, notes@, ws_id@, note_id@),
        },
{
    let keys = notes.keys();
    let mut i: usize = 0;
    while i < keys.len()
        invariant
            i <= keys@.len(),
            is_key_list(notes@, keys@),
            forall|k: int|
                0 <= k < i ==> !shows_note(
                    labels@,
                    notes@,
                    (#[trigger] keys@[k])@,
                    ws_id@,
                    note_id@,
                ),
        decreases keys@.len() - i,
    {
        let label = keys[i].as_str();
        if is_assigned_to(notes, label, note_id) && is_assigned_to(labels, label, ws_id) {
            return Some(keys[i].clone());
        }
        i = i + 1;
    }
    proof {
        assert forall|label: Seq<char>| !#[trigger] shows_note(
            labels@,
            notes@,
            label,
            ws_id@,
            note_id@,
        ) by {
            if notes@.contains_key(label) {
                let k = choose|k: int| 0 <= k < keys@.len() && (#[trigger] keys@[k])@ == label;
                assert(!shows_note(labels@, notes@, keys@[k]@, ws_id@, note_id@));
            }
        }
    }
    None
}

/// The notes of the windows once the note `old_id` of the workspace `ws` is called `new_id`.
pub open spec fn remapped(
    labels: Assignments,
    notes: Assignments,
    ws: Seq<char>,
    old_id: Seq<char>,
    new_id: Seq<char>,
) -> Assignments {
    Map::new(
        |label: Seq<char>| notes.contains_key(label),
        |label: Seq<char>|
            if shows_note(labels, notes, label, ws, old_id) {
                new_id
            } else {
                notes[label]
            },
    )
}

/// The notes of the windows once the note `note` of the workspace `ws` is gone.
pub open spec fn unassigned(
    labels: Assignments,
    notes: Assignments,
    ws: Seq<char>,
    note: Seq<char>,
) -> Assignments {
    Map::new(
        |label: Seq<char>|
            notes.contains_key(label) && !shows_note(labels, notes, label, ws, note),
        |label: Seq<char>| notes[label],
    )
}

/// After a rename no window of the workspace shows the old note, those that did show the new one,
/// and the windows of other workspaces are untouched.
pub proof fn a_rename_stays_in_its_workspace(
    labels: Assignments,
    notes: Assignments,
    ws: Seq<char>,
    old_id: Seq<char>,
    new_id: Seq<char>,
    label: Seq<char>,
)
    ensures
        ({
            let after = remapped(labels, notes, ws, old_id, new_id);
            &&& shows_note(labels, notes, label, ws, old_id) ==> shows_note(
                labels,
                after,
                label,
                ws,
                new_id,
            )
            &&& old_id != new_id ==> !shows_note(labels, after, label, ws, old_id)
            &&& !is_assigned(labels, label, ws) ==> (after.contains_key(label)
                == notes.contains_key(label) && (notes.contains_key(label) ==> after[label]
                == notes[label]))
        }),
{
}

/// After a note is gone no window of its workspace shows it, and every other assignment stays.
pub proof fn a_removal_stays_in_its_workspace(
    labels: Assignments,
    notes: Assignments,
    ws: Seq<char>,
    note: Seq<char>,
    label: Seq<char>,
)
    ensures
        ({
            let after = unassigned(labels, notes, ws, note);
            &&& !shows_note(labels, after, label, ws, note)
            &&& !shows_note(labels, notes, label, ws, note) ==> (after.contains_key(label)
                == notes.contains_key(label) && (notes.contains_key(label) ==> after[label]
                == notes[label]))
        }),
{
}

/// The keys of the windows that show the note `note_id` of the workspace `ws_id`.
fn labels_of_note(
    labels: &StringMap<String>,
    notes: &StringMap<String>,
    ws_id: &str,
    note_id: &str,
) -> (res: Vec<String>)
    ensures
        forall|i: int|
            0 <= i < res@.len() ==> shows_note(
                labels@,
                notes@,
                (#[trigger] res@[i])@,
                ws_id@,
                note_id@,
            ),
        forall|label: Seq<char>| #[trigger]
            shows_note(labels@, notes@, label, ws_id@, note_id@) ==> is_listed(res@, label),
{
    let keys = notes.keys();
    let mut out: Vec<String> = Vec::new();
    let mut i: usize = 0;
    while i < keys.len()
        invariant
            i <= keys@.len(),
            is_key_list(notes@, keys@),
            forall|k: int|
                0 <= k < out@.len() ==> shows_note(
                    labels@,
                    notes@,
                    (#[trigger] out@[k])@,
                    ws_id@,
                    note_id@,
                ),
            forall|k: int|
                0 <= k < i && shows_note(
                    labels@,
                    notes@,
                    (#[trigger] keys@[k])@,
                    ws_id@,
                    note_id@,
                ) ==> is_listed(out@, keys@[k]@),
        decreases keys@.len() - i,
    {
        let ghost before = out@;
        let label = keys[i].as_str();
        if is_assigned_to(notes, label, note_id) && is_assigned_to(labels, label, ws_id) {
            out.push(keys[i].clone());
            proof {
                assert(out@[before.len() as int]@ == keys@[i as int]@);
                assert forall|t: Seq<char>| is_listed(before, t) implies is_listed(out@, t) by {
                    let k = choose|k: int| 0 <= k < before.len() && (#[trigger] before[k])@ == t;
                    assert(out@[k]@ == t);
                }
            }
        }
        i = i + 1;
    }
    proof {
        assert forall|label: Seq<char>| #[trigger]
            shows_note(labels@, notes@, label, ws_id@, note_id@) implies is_listed(out@, label) by {
            let k = choose|k: int| 0 <= k < keys@.len() && (#[trigger] keys@[k])@ == label;
            assert(is_listed(out@, keys@[k]@));
        }
    }
    out
}

/// Whether `text` is in the list.
pub open spec fn is_listed(list: Seq<String>, text: Seq<char>) -> bool {
    exists|i: int| 0 <= i < list.len() && (#[trigger] list[i])@ == text
}

/// Whether `text` is in the list.
pub fn lists(list: &Vec<String>, text: &str) -> (res: bool)
    ensures
        res == is_listed(list@, text@),
{
    let mut i: usize = 0;
    while i < list.len()
        invariant
            i <= list@.len(),
            forall|k: int| 0 <= k < i ==> (#[trigger] list@[k])@ != text@,
        decreases list@.len() - i,
    {
        if same_text(list[i].as_str(), text) {
            return true;
        }
        i = i + 1;
    }
    false
}

/// Gives the windows of the workspace `ws_id` that show the note `old_id` its new id.
pub fn remap_note_windows(
    labels: &StringMap<String>,
    notes: &mut StringMap<String>,
    ws_id: &str,
    old_id: &str,
    new_id: &str,
)
    ensures
        final(notes)@ == remapped(labels@, old(notes)@, ws_id@, old_id@, new_id@),
{
    let ghost before = notes@;
    let ghost after = remapped(labels@, before, ws_id@, old_id@, new_id@);
    let found = labels_of_note(labels, notes, ws_id, old_id);
    let mut i: usize = 0;
    assert(found@.take(0) =~= Seq::empty());
    while i < found.len()
        invariant
            i <= found@.len(),
            after == remapped(labels@, before, ws_id@, old_id@, new_id@),
            forall|k: int|
                0 <= k < found@.len() ==> shows_note(
                    labels@,
                    before,
                    (#[trigger] found@[k])@,
                    ws_id@,
                    old_id@,
                ),
            forall|label: Seq<char>| #[trigger]
                notes@.contains_key(label) <==> before.contains_key(label),
            forall|label: Seq<char>| #[trigger]
                notes@.contains_key(label) ==> notes@[label] == if is_listed(
                    found@.take(i as int),
                    label,
                ) {
                    new_id@
                } else {
                    before[label]
                },
        decreases found@.len() - i,
    {
        notes.insert(found[i].clone(), new_id.to_owned());
        proof {
            assert(shows_note(labels@, before, found@[i as int]@, ws_id@, old_id@));
            listing_one_more(found@, i as int);
        }
        i = i + 1;
    }
    proof {
        assert(found@.take(found@.len() as int) =~= found@);
        assert forall|label: Seq<char>| #[trigger]
            notes@.dom().contains(label) == after.dom().contains(label) && (notes@.dom().contains(
                label,
            ) ==> notes@[label] == after[label]) by {
            assert(notes@.contains_key(label) <==> before.contains_key(label));
            if is_listed(found@, label) {
                let k = choose|k: int| 0 <= k < found@.len() && (#[trigger] found@[k])@ == label;
                assert(shows_note(labels@, before, found@[k]@, ws_id@, old_id@));
            }
        }
        assert(notes@ =~= after);
    }
}

proof fn listing_one_more(list: Seq<String>, i: int)
    requires
        0 <= i < list.len(),
    ensures
        forall|text: Seq<char>| #[trigger]
            is_listed(list.take(i + 1), text) <==> is_listed(list.take(i), text) || text == list[i]@,
{
    assert forall|text: Seq<char>| #[trigger] is_listed(list.take(i + 1), text) <==> is_listed(
        list.take(i),
        text,
    ) || text == list[i]@ by {
        if is_listed(list.take(i), text) {
            let k = choose|k: int|
                0 <= k < list.take(i).len() && (#[trigger] list.take(i)[k])@ == text;
            assert(list.take(i + 1)[k]@ == text);
        }
        if text == list[i]@ {
            assert(list.take(i + 1)[i]@ == text);
        }
        if is_listed(list.take(i + 1), text) {
            let k = choose|k: int|
                0 <= k < list.take(i + 1).len() && (#[trigger] list.take(i + 1)[k])@ == text;
            if k < i {
                assert(list.take(i)[k]@ == text);
            }
        }
    }
}

/// Takes the note `note_id` from the windows of the workspace `ws_id` that show it.
pub fn unassign_note_windows(
    labels: &StringMap<String>,
    notes: &mut StringMap<String>,
    ws_id: &str,
    note_id: &str,
)
    ensures
        final(notes)@ == unassigned(labels@, old(notes)@, ws_id@, note_id@),
{
    let ghost before = notes@;
    let ghost after = unassigned(labels@, before, ws_id@, note_id@);
    let found = labels_of_note(labels, notes, ws_id, note_id);
    let mut i: usize = 0;
    assert(found@.take(0) =~= Seq::empty());
    while i < found.len()
        invariant
            i <= found@.len(),
            after == unassigned(labels@, before, ws_id@, note_id@),
            forall|label: Seq<char>| #[trigger]
                notes@.contains_key(label) <==> before.contains_key(label) && !is_listed(
                    found@.take(i as int),
                    label,
                ),
            forall|label: Seq<char>| #[trigger]
                notes@.contains_key(label) ==> notes@[label] == before[label],
        decreases found@.len() - i,
    {
        let _ = notes.remove(found[i].as_str());
        proof {
            listing_one_more(found@, i as int);
        }
        i = i + 1;
    }
    proof {
        assert(found@.take(found@.len() as int) =~= found@);
        assert forall|label: Seq<char>| #[trigger]
            notes@.dom().contains(label) == after.dom().contains(label) && (notes@.dom().contains(
                label,
            ) ==> notes@[label] == after[label]) by {
            assert(notes@.contains_key(label) <==> before.contains_key(label) && !is_listed(
                found@,
                label,
            ));
            if is_listed(found@, label) {
                let k = choose|k: int| 0 <= k < found@.len() && (#[trigger] found@[k])@ == label;
                assert(shows_note(labels@, before, found@[k]@, ws_id@, note_id@));
            }
        }
        assert(notes@ =~= after);
    }
}

} // verus!
