//! Subscriptions, windows, links and menus in plain terms.

use vstd::prelude::*;

use crate::assignments::{pending_key, shows_note, shows_workspace, Assignments};
use crate::shell::{
    has_focus, has_no_menu_target, is_menu_target, is_openable, menus, MenuEntry, WindowInfo,
    MENU_ABOUT, MENU_MAIN_WINDOW,
};
use crate::string_map::is_key_list;
use crate::text::decimal;
use crate::watch::texts;
use crate::watchers::{
    all_counted, count_of, is_left_unused, is_live, is_unused, is_unwatched_list, subscribed,
    subscriptions_of, unsubscribed, with_one_less, without_window, Registry, Subscriptions,
};
use crate::windows::{
    drops_dead_notes, is_forgotten, listed, note_is_built, note_is_found, note_is_opened,
    note_is_removed, note_is_renamed, note_is_set, note_label, window_is_gone,
    with_note_window, with_workspace_window, workspace_is_built, workspace_is_found,
    workspace_is_opened, workspace_is_set, workspace_label, Found, Opening, WindowStateView,
    MAIN_WINDOW,
};

verus! {

/// How often the window `label` has asked for the changes in `dir` and not taken it back.
pub open spec fn asked(registry: Registry, dir: Seq<char>, label: Seq<char>) -> int {
    if registry.contains_key(dir) && registry[dir].contains_key(label) {
        registry[dir][label] as int
    } else {
        0
    }
}

/// Where each folder that is watched was asked for, and no window is held that did not ask, a folder
/// is watched exactly while some window asks for it.
pub proof fn what_is_asked_for_is_watched(
    registry: Registry,
    subs: Subscriptions,
    dir: Seq<char>,
    label: Seq<char>,
)
    requires
        is_live(registry),
    ensures
        count_of(subscriptions_of(registry, dir), label) == asked(registry, dir, label),
        asked(registry, dir, label) > 0 ==> registry.contains_key(dir),
        registry.contains_key(dir) ==> exists|l: Seq<char>| #[trigger] asked(registry, dir, l) > 0,
        registry.contains_key(dir) && registry[dir].contains_key(label) ==> asked(
            registry,
            dir,
            label,
        ) > 0,
        is_unused(subs) <==> forall|l: Seq<char>| !#[trigger] subs.contains_key(l),
{
    if registry.contains_key(dir) {
        let of_dir = registry[dir];
        assert(!is_unused(of_dir));
        if forall|l: Seq<char>| !#[trigger] of_dir.contains_key(l) {
            assert(of_dir =~= Map::<Seq<char>, u32>::empty());
        }
        let l = choose|l: Seq<char>| #[trigger] of_dir.contains_key(l);
        assert(asked(registry, dir, l) > 0);
    }
    if forall|l: Seq<char>| !#[trigger] subs.contains_key(l) {
        assert(subs =~= Map::<Seq<char>, u32>::empty());
    }
}

/// Asking once more counts one more for this window and this folder, and changes nothing else.
pub proof fn asking_counts_one_more(
    registry: Registry,
    dir: Seq<char>,
    label: Seq<char>,
    d: Seq<char>,
    l: Seq<char>,
)
    requires
        asked(registry, dir, label) < u32::MAX,
    ensures
        asked(subscribed(registry, dir, label), d, l) == asked(registry, d, l) + if d == dir && l
            == label {
            1int
        } else {
            0int
        },
        subscribed(registry, dir, label).contains_key(d) <==> d == dir || registry.contains_key(d),
{
}

/// Taking a request back counts one less for this window and this folder, but never less than none,
/// and changes nothing else. The folder is watched on exactly while some window asks for it.
pub proof fn taking_back_counts_one_less(
    registry: Registry,
    dir: Seq<char>,
    label: Seq<char>,
    d: Seq<char>,
    l: Seq<char>,
)
    requires
        is_live(registry),
    ensures
        ({
            let after = unsubscribed(registry, dir, label);
            &&& asked(after, d, l) == if d == dir && l == label && asked(registry, d, l) > 0 {
                asked(registry, d, l) - 1
            } else {
                asked(registry, d, l)
            }
            &&& d != dir ==> (after.contains_key(d) <==> registry.contains_key(d))
            &&& after.contains_key(d) <==> exists|x: Seq<char>| #[trigger] asked(after, d, x) > 0
        }),
{
    let after = unsubscribed(registry, dir, label);
    if registry.contains_key(dir) {
        let less = with_one_less(registry[dir], label);
        assert(all_counted(registry[dir]));
        if is_unused(less) {
            assert(!less.contains_key(l));
            if l != label {
                assert(!registry[dir].contains_key(l));
            }
            if registry[dir].contains_key(label) {
                assert(registry[dir][label] >= 1);
            }
        } else {
            assert(registry[dir].contains_key(label) ==> registry[dir][label] >= 1);
        }
    }
    if after.contains_key(d) {
        assert(registry.contains_key(d));
        let of_d = after[d];
        if d == dir {
            assert(!is_unused(of_d));
        } else {
            assert(!is_unused(registry[d]));
        }
        if forall|x: Seq<char>| !#[trigger] of_d.contains_key(x) {
            assert(of_d =~= Map::<Seq<char>, u32>::empty());
        }
        let x = choose|x: Seq<char>| #[trigger] of_d.contains_key(x);
        assert(registry[d].contains_key(x));
        assert(registry[d][x] >= 1);
        assert(asked(after, d, x) > 0);
    }
}

/// With a window all its requests go, and those of other windows stay. A folder is watched on exactly
/// while some window asks for it, and the list of those that no longer are holds each once.
pub proof fn with_a_window_its_requests_go(
    registry: Registry,
    label: Seq<char>,
    d: Seq<char>,
    l: Seq<char>,
    list: Seq<Seq<char>>,
)
    requires
        is_live(registry),
    ensures
        ({
            let after = without_window(registry, label);
            &&& asked(after, d, l) == if l == label {
                0
            } else {
                asked(registry, d, l)
            }
            &&& after.contains_key(d) <==> exists|x: Seq<char>| #[trigger] asked(after, d, x) > 0
            &&& is_unwatched_list(registry, label, list) ==> list.no_duplicates() && (list.contains(d)
                <==> registry.contains_key(d) && !after.contains_key(d))
        }),
{
    let after = without_window(registry, label);
    if registry.contains_key(d) {
        let rest = registry[d].remove(label);
        if is_unused(rest) {
            assert(!rest.contains_key(l));
        }
        if after.contains_key(d) {
            if forall|x: Seq<char>| !#[trigger] rest.contains_key(x) {
                assert(rest =~= Map::<Seq<char>, u32>::empty());
            }
            let x = choose|x: Seq<char>| #[trigger] rest.contains_key(x);
            assert(registry[d].contains_key(x));
            assert(registry[d][x] >= 1);
            assert(asked(after, d, x) > 0);
        }
    }
    if is_unwatched_list(registry, label, list) {
        assert(list.contains(d) <==> is_left_unused(registry, label, d));
    }
}

/// A list of the keys of a map holds each key once, and nothing else.
pub proof fn a_key_list_holds_each_key_once<T>(
    map: Map<Seq<char>, T>,
    list: Seq<String>,
    key: Seq<char>,
)
    requires
        is_key_list(map, list),
    ensures
        texts(list).no_duplicates(),
        texts(list).contains(key) <==> map.contains_key(key),
{
    let keys = texts(list);
    if map.contains_key(key) {
        let i = choose|i: int| 0 <= i < list.len() && (#[trigger] list[i])@ == key;
        assert(keys[i] == key);
    }
    if keys.contains(key) {
        let i = choose|i: int| 0 <= i < keys.len() && keys[i] == key;
        assert(map.contains_key(list[i]@));
    }
    assert forall|i: int, j: int| 0 <= i < keys.len() && 0 <= j < keys.len() && i != j implies keys[i]
        != keys[j] by {
        assert(keys[i] == list[i]@ && keys[j] == list[j]@);
    }
}

/// Whether a label is that of a window for a single note.
pub open spec fn is_for_a_note(label: Seq<char>) -> bool {
    exists|rest: Seq<char>| label == #[trigger] ("note-"@ + rest)
}

/// Which window shows what: one that is assigned the workspace shows it as a whole, unless its label
/// begins with `note-` or it is left out; one that is assigned both shows the note of the workspace.
pub proof fn windows_show_what_they_are_assigned(
    labels: Assignments,
    notes: Assignments,
    label: Seq<char>,
    ws: Seq<char>,
    note: Seq<char>,
    exclude: Option<Seq<char>>,
)
    ensures
        shows_workspace(labels, label, ws, exclude) <==> {
            &&& labels.contains_key(label)
            &&& labels[label] == ws
            &&& !is_for_a_note(label)
            &&& exclude != Some(label)
        },
        shows_note(labels, notes, label, ws, note) <==> {
            &&& labels.contains_key(label)
            &&& labels[label] == ws
            &&& notes.contains_key(label)
            &&& notes[label] == note
        },
{
    let prefix = "note-"@;
    if prefix.is_prefix_of(label) {
        let rest = label.skip(prefix.len() as int);
        assert(label =~= prefix + rest);
    }
    if is_for_a_note(label) {
        let rest = choose|rest: Seq<char>| label == #[trigger] ("note-"@ + rest);
        assert(label.subrange(0, prefix.len() as int) =~= prefix);
    }
}

/// The labels of windows and the marks of notes that are being opened.
pub proof fn labels_and_marks_read(n: u32, ws: Seq<char>, note: Seq<char>)
    ensures
        workspace_label(n) == "ws-"@ + decimal(n as nat),
        note_label(n) == "note-"@ + decimal(n as nat),
        pending_key(ws, note) == ws + seq!['\u{1f}'] + note,
        MAIN_WINDOW@ == "main"@,
        MENU_ABOUT@ == "about"@,
        MENU_MAIN_WINDOW@ == "main-window"@,
{
    assert(pending_key(ws, note) =~= ws + seq!['\u{1f}'] + note);
}

/// The texts in a list are those that it holds.
pub proof fn live_windows_are_those_listed(list: Seq<String>, label: Seq<char>)
    ensures
        listed(list).contains(label) <==> texts(list).contains(label),
{
    let all = texts(list);
    if listed(list).contains(label) {
        let i = choose|i: int| 0 <= i < list.len() && (#[trigger] list[i])@ == label;
        assert(all[i] == label);
    }
    if all.contains(label) {
        let i = choose|i: int| 0 <= i < all.len() && all[i] == label;
        assert(list[i]@ == label);
    }
}

/// Looking for a workspace finds that it is being opened exactly if it is; else a living window that
/// shows it as a whole exactly if there is one, and then one of those. No window is forgotten but
/// dead ones that showed the workspace, and all of these where it is found nowhere.
pub proof fn a_workspace_is_looked_for(
    before: WindowStateView,
    after: WindowStateView,
    ws: Seq<char>,
    exclude: Option<Seq<char>>,
    live: Set<Seq<char>>,
    found: Found<Seq<char>>,
    l: Seq<char>,
)
    requires
        workspace_is_found(before, after, ws, exclude, live, found),
    ensures
        found is Opening <==> before.pending.contains(ws),
        found is Opening ==> after == before,
        !before.pending.contains(ws) ==> (found is Window <==> exists|x: Seq<char>|
            live.contains(x) && #[trigger] shows_workspace(before.labels, x, ws, exclude)),
        found matches Found::Window(label) ==> live.contains(label) && shows_workspace(
            before.labels,
            label,
            ws,
            exclude,
        ) && after.labels.contains_key(label),
        live.contains(l) || !shows_workspace(before.labels, l, ws, exclude) ==> (
        after.labels.contains_key(l) <==> before.labels.contains_key(l)),
        after.labels.contains_key(l) ==> before.labels.contains_key(l) && after.labels[l]
            == before.labels[l],
        found is Nowhere && after.labels.contains_key(l) ==> !shows_workspace(
            before.labels,
            l,
            ws,
            exclude,
        ),
        after.notes == before.notes,
        after.pending == before.pending,
        after.next_ws == before.next_ws,
        after.next_note == before.next_note,
{
    if !before.pending.contains(ws) {
        if exists|x: Seq<char>|
            live.contains(x) && #[trigger] shows_workspace(before.labels, x, ws, exclude) {
            let x = choose|x: Seq<char>|
                live.contains(x) && #[trigger] shows_workspace(before.labels, x, ws, exclude);
            assert(before.labels.contains_key(x));
            assert(after.labels.contains_key(x));
            assert(shows_workspace(after.labels, x, ws, exclude));
        }
        if let Found::Window(label) = found {
            assert(after.labels.contains_key(label));
            assert(shows_workspace(before.labels, label, ws, exclude));
        }
        if found is Nowhere && after.labels.contains_key(l) {
            assert(!shows_workspace(after.labels, l, ws, exclude));
        }
    }
}

/// Opening a workspace makes a window exactly if it is not being opened and no living window shows
/// it as a whole. The window has the next number, is assigned the workspace and is noted as being
/// opened.
pub proof fn a_workspace_window_is_made(
    before: WindowStateView,
    after: WindowStateView,
    ws: Seq<char>,
    live: Set<Seq<char>>,
    opening: Opening<Seq<char>>,
)
    requires
        workspace_is_opened(before, after, ws, live, opening),
    ensures
        opening is Opening <==> before.pending.contains(ws),
        opening is Create <==> !before.pending.contains(ws) && forall|x: Seq<char>|
            live.contains(x) ==> !#[trigger] shows_workspace(before.labels, x, ws, None),
        opening matches Opening::Window(label) ==> live.contains(label) && shows_workspace(
            before.labels,
            label,
            ws,
            None,
        ),
        opening matches Opening::Create(label, n) ==> {
            &&& n == before.next_ws
            &&& label == "ws-"@ + decimal(n as nat)
            &&& after.labels.contains_key(label) && after.labels[label] == ws
            &&& forall|l: Seq<char>|
                #![trigger after.labels.contains_key(l)]
                l != label && after.labels.contains_key(l) ==> before.labels.contains_key(l)
                    && after.labels[l] == before.labels[l]
            &&& forall|x: Seq<char>| #[trigger]
                after.pending.contains(x) <==> x == ws || before.pending.contains(x)
            &&& after.next_ws == if n == u32::MAX {
                0
            } else {
                n + 1
            }
        },
        !(opening is Create) ==> after.pending == before.pending && after.next_ws
            == before.next_ws,
        after.notes == before.notes,
        after.next_note == before.next_note,
{
    match opening {
        Opening::Opening => {
            a_workspace_is_looked_for(before, after, ws, None, live, Found::Opening, ws);
        },
        Opening::Window(label) => {
            a_workspace_is_looked_for(before, after, ws, None, live, Found::Window(label), label);
        },
        Opening::Create(label, n) => {
            let kept = choose|kept: WindowStateView| #[trigger]
                workspace_is_found(before, kept, ws, None, live, Found::Nowhere) && after
                    == with_workspace_window(kept, ws);
            a_workspace_is_looked_for(before, kept, ws, None, live, Found::Nowhere, label);
            assert forall|l: Seq<char>|
                #![trigger after.labels.contains_key(l)]
                l != label && after.labels.contains_key(l) implies before.labels.contains_key(l)
                && after.labels[l] == before.labels[l] by {
                a_workspace_is_looked_for(before, kept, ws, None, live, Found::Nowhere, l);
            }
        },
    }
}

/// Looking for a note finds that it is being opened exactly if it is; else a living window that shows
/// it exactly if there is one, and then one of those. No window is forgotten but dead ones that
/// showed the note, and all of these where it is found nowhere.
pub proof fn a_note_is_looked_for(
    before: WindowStateView,
    after: WindowStateView,
    ws: Seq<char>,
    note: Seq<char>,
    live: Set<Seq<char>>,
    found: Found<Seq<char>>,
    l: Seq<char>,
)
    requires
        note_is_found(before, after, ws, note, live, found),
    ensures
        ({
            let mark = ws + seq!['\u{1f}'] + note;
            &&& found is Opening <==> before.pending.contains(mark)
            &&& found is Opening ==> after == before
            &&& !before.pending.contains(mark) ==> (found is Window <==> exists|x: Seq<char>|
                live.contains(x) && #[trigger] shows_note(before.labels, before.notes, x, ws, note))
        }),
        found matches Found::Window(label) ==> live.contains(label) && shows_note(
            before.labels,
            before.notes,
            label,
            ws,
            note,
        ),
        live.contains(l) || !shows_note(before.labels, before.notes, l, ws, note) ==> (
        after.labels.contains_key(l) <==> before.labels.contains_key(l)) && (
        after.notes.contains_key(l) <==> before.notes.contains_key(l)),
        after.labels.contains_key(l) ==> before.labels.contains_key(l) && after.labels[l]
            == before.labels[l],
        after.notes.contains_key(l) ==> before.notes.contains_key(l) && after.notes[l]
            == before.notes[l],
        found is Nowhere && shows_note(before.labels, before.notes, l, ws, note)
            ==> !after.labels.contains_key(l) && !after.notes.contains_key(l),
        after.pending == before.pending,
        after.next_ws == before.next_ws,
        after.next_note == before.next_note,
{
    labels_and_marks_read(0, ws, note);
    if !before.pending.contains(pending_key(ws, note)) {
        assert(drops_dead_notes(before, after, ws, note, live));
        if exists|x: Seq<char>|
            live.contains(x) && #[trigger] shows_note(before.labels, before.notes, x, ws, note) {
            let x = choose|x: Seq<char>|
                live.contains(x) && #[trigger] shows_note(before.labels, before.notes, x, ws, note);
            assert(!is_forgotten(before, after, x));
            assert(shows_note(after.labels, after.notes, x, ws, note));
        }
        if let Found::Window(label) = found {
            assert(after.labels.contains_key(label) && after.notes.contains_key(label));
            assert(shows_note(before.labels, before.notes, label, ws, note));
        }
        let shows = shows_note(before.labels, before.notes, l, ws, note);
        assert(is_forgotten(before, after, l) ==> shows && !live.contains(l));
        if live.contains(l) || !shows {
            assert(!is_forgotten(before, after, l));
        }
        if found is Nowhere && shows_note(before.labels, before.notes, l, ws, note) {
            assert(!shows_note(after.labels, after.notes, l, ws, note));
            assert(is_forgotten(before, after, l)) by {
                if after.labels.contains_key(l) && after.notes.contains_key(l) {
                    assert(shows_note(after.labels, after.notes, l, ws, note));
                }
            }
        }
    }
}

/// Opening a note makes a window exactly if it is not being opened and no living window shows it.
/// The window has the next number, is assigned the note and its workspace, and the note is noted as
/// being opened.
pub proof fn a_note_window_is_made(
    before: WindowStateView,
    after: WindowStateView,
    ws: Seq<char>,
    note: Seq<char>,
    live: Set<Seq<char>>,
    opening: Opening<Seq<char>>,
)
    requires
        note_is_opened(before, after, ws, note, live, opening),
    ensures
        ({
            let mark = ws + seq!['\u{1f}'] + note;
            &&& opening is Opening <==> before.pending.contains(mark)
            &&& opening is Create <==> !before.pending.contains(mark) && forall|x: Seq<char>|
                live.contains(x) ==> !#[trigger] shows_note(before.labels, before.notes, x, ws, note)
            &&& opening matches Opening::Create(label, n) ==> {
                &&& n == before.next_note
                &&& label == "note-"@ + decimal(n as nat)
                &&& after.labels.contains_key(label) && after.labels[label] == ws
                &&& after.notes.contains_key(label) && after.notes[label] == note
                &&& forall|l: Seq<char>|
                    #![trigger after.labels.contains_key(l)]
                    l != label && after.labels.contains_key(l) ==> before.labels.contains_key(l)
                        && after.labels[l] == before.labels[l]
                &&& forall|l: Seq<char>|
                    #![trigger after.notes.contains_key(l)]
                    l != label && after.notes.contains_key(l) ==> before.notes.contains_key(l)
                        && after.notes[l] == before.notes[l]
                &&& forall|x: Seq<char>| #[trigger]
                    after.pending.contains(x) <==> x == mark || before.pending.contains(x)
                &&& after.next_note == if n == u32::MAX {
                    0
                } else {
                    n + 1
                }
            }
        }),
        opening matches Opening::Window(label) ==> live.contains(label) && shows_note(
            before.labels,
            before.notes,
            label,
            ws,
            note,
        ),
        !(opening is Create) ==> after.pending == before.pending && after.next_note
            == before.next_note,
        after.next_ws == before.next_ws,
{
    labels_and_marks_read(0, ws, note);
    match opening {
        Opening::Opening => {
            a_note_is_looked_for(before, after, ws, note, live, Found::Opening, ws);
        },
        Opening::Window(label) => {
            a_note_is_looked_for(before, after, ws, note, live, Found::Window(label), label);
        },
        Opening::Create(label, n) => {
            let kept = choose|kept: WindowStateView| #[trigger]
                note_is_found(before, kept, ws, note, live, Found::Nowhere) && after
                    == with_note_window(kept, ws, note);
            a_note_is_looked_for(before, kept, ws, note, live, Found::Nowhere, label);
            assert forall|l: Seq<char>|
                #![trigger after.labels.contains_key(l)]
                l != label && after.labels.contains_key(l) implies before.labels.contains_key(l)
                && after.labels[l] == before.labels[l] by {
                a_note_is_looked_for(before, kept, ws, note, live, Found::Nowhere, l);
            }
            assert forall|l: Seq<char>|
                #![trigger after.notes.contains_key(l)]
                l != label && after.notes.contains_key(l) implies before.notes.contains_key(l)
                && after.notes[l] == before.notes[l] by {
                a_note_is_looked_for(before, kept, ws, note, live, Found::Nowhere, l);
            }
        },
    }
}

/// Whether the assignment of `l` is the same in both.
pub open spec fn agree_on(a: Assignments, b: Assignments, l: Seq<char>) -> bool {
    (a.contains_key(l) <==> b.contains_key(l)) && (a.contains_key(l) ==> a[l] == b[l])
}

/// A window that is there, or that could not be made, ends the opening of its workspace or note, and
/// of nothing else. A window that could not be made shows nothing; no other window changes.
pub proof fn a_window_that_is_built_is_no_longer_opened(
    before: WindowStateView,
    ws: Seq<char>,
    note: Seq<char>,
    label: Seq<char>,
    is_there: bool,
    x: Seq<char>,
    l: Seq<char>,
)
    ensures
        ({
            let after = workspace_is_built(before, ws, label, is_there);
            &&& after.pending.contains(x) <==> before.pending.contains(x) && x != ws
            &&& is_there || l != label ==> agree_on(after.labels, before.labels, l)
            &&& !is_there ==> !after.labels.contains_key(label)
            &&& after.notes == before.notes
            &&& after.next_ws == before.next_ws && after.next_note == before.next_note
        }),
        ({
            let after = note_is_built(before, ws, note, label, is_there);
            &&& after.pending.contains(x) <==> before.pending.contains(x) && x != ws
                + seq!['\u{1f}'] + note
            &&& is_there || l != label ==> agree_on(after.labels, before.labels, l) && agree_on(
                after.notes,
                before.notes,
                l,
            )
            &&& !is_there ==> !after.labels.contains_key(label) && !after.notes.contains_key(label)
            &&& after.next_ws == before.next_ws && after.next_note == before.next_note
        }),
{
    labels_and_marks_read(0, ws, note);
}

/// What a window is told to show it shows from then on, and no other window changes; a window that is
/// gone shows nothing.
pub proof fn a_window_shows_what_it_is_told(
    before: WindowStateView,
    label: Seq<char>,
    ws: Seq<char>,
    note: Option<Seq<char>>,
    l: Seq<char>,
)
    ensures
        ({
            let after = workspace_is_set(before, label, ws);
            &&& after.labels.contains_key(label) && after.labels[label] == ws
            &&& l != label ==> agree_on(after.labels, before.labels, l)
            &&& after == (WindowStateView { labels: after.labels, ..before })
        }),
        ({
            let after = note_is_set(before, label, note);
            &&& note matches Some(id) ==> after.notes.contains_key(label) && after.notes[label] == id
            &&& note is None ==> !after.notes.contains_key(label)
            &&& l != label ==> agree_on(after.notes, before.notes, l)
            &&& after == (WindowStateView { notes: after.notes, ..before })
        }),
        ({
            let after = window_is_gone(before, label);
            &&& !after.labels.contains_key(label) && !after.notes.contains_key(label)
            &&& l != label ==> agree_on(after.labels, before.labels, l) && agree_on(
                after.notes,
                before.notes,
                l,
            )
            &&& after == (WindowStateView { labels: after.labels, notes: after.notes, ..before })
        }),
{
}

/// A note that is renamed or that is gone, as one window says, is so in every window of the workspace
/// of that window that shows it, and in no other; where the window has no workspace nothing changes.
pub proof fn a_note_changes_in_the_windows_of_its_workspace(
    before: WindowStateView,
    caller: Seq<char>,
    old_id: Seq<char>,
    new_id: Seq<char>,
    l: Seq<char>,
)
    ensures
        ({
            let shown = before.labels.contains_key(caller) && before.labels.contains_key(l)
                && before.labels[l] == before.labels[caller] && before.notes.contains_key(l)
                && before.notes[l] == old_id;
            let renamed = note_is_renamed(before, caller, old_id, new_id);
            let removed = note_is_removed(before, caller, old_id);
            &&& shown ==> renamed.notes.contains_key(l) && renamed.notes[l] == new_id
            &&& shown ==> !removed.notes.contains_key(l)
            &&& !shown ==> agree_on(renamed.notes, before.notes, l)
            &&& !shown ==> agree_on(removed.notes, before.notes, l)
            &&& renamed == (WindowStateView { notes: renamed.notes, ..before })
            &&& removed == (WindowStateView { notes: removed.notes, ..before })
        }),
{
}

/// Whether `url` begins with `scheme`.
pub open spec fn begins_with(url: Seq<char>, scheme: Seq<char>) -> bool {
    exists|rest: Seq<char>| url == #[trigger] (scheme + rest)
}

proof fn beginning_is_a_prefix(url: Seq<char>, scheme: Seq<char>)
    ensures
        begins_with(url, scheme) <==> scheme.is_prefix_of(url),
{
    if scheme.is_prefix_of(url) {
        let rest = url.skip(scheme.len() as int);
        assert(url =~= scheme + rest);
    }
    if begins_with(url, scheme) {
        assert(url.subrange(0, scheme.len() as int) =~= scheme);
    }
}

/// A link is opened exactly if it is one to the web, to a mail address or to a phone number, whatever
/// stands behind that.
pub proof fn only_these_links_are_opened(url: Seq<char>)
    ensures
        is_openable(url) <==> begins_with(url, "http://"@) || begins_with(url, "https://"@)
            || begins_with(url, "mailto:"@) || begins_with(url, "tel:"@),
{
    beginning_is_a_prefix(url, "http://"@);
    beginning_is_a_prefix(url, "https://"@);
    beginning_is_a_prefix(url, "mailto:"@);
    beginning_is_a_prefix(url, "tel:"@);
}

/// A choice from the menu goes to a window that has the focus, where one has; else to one that can be
/// seen, where one can; and only else to none.
pub proof fn the_menu_goes_to_the_window_in_front(
    windows: Seq<WindowInfo>,
    label: Seq<char>,
    i: int,
)
    requires
        0 <= i < windows.len(),
    ensures
        windows[i].focused || windows[i].visible ==> !has_no_menu_target(windows),
        is_menu_target(windows, label) ==> !has_no_menu_target(windows) && exists|j: int|
            0 <= j < windows.len() && (#[trigger] windows[j]).label@ == label && (
            windows[j].focused || windows[j].visible),
        windows[i].focused && is_menu_target(windows, label) ==> exists|j: int|
            0 <= j < windows.len() && (#[trigger] windows[j]).label@ == label
                && windows[j].focused,
{
    if windows[i].focused {
        assert(has_focus(windows));
    }
}

/// The menus: the one of the application, with what it is and how to hide and quit it; that for
/// editing; that for the view; and that for the window, with the way to the main window.
pub proof fn the_menus_hold_these(name: Seq<char>)
    ensures
        ({
            let all = menus(name);
            &&& all.len() == 4
            &&& all[0].title == name
            &&& all[0].entries == seq![
                MenuEntry::Own("about"@, "About "@ + name, None),
                MenuEntry::Separator,
                MenuEntry::Services,
                MenuEntry::Separator,
                MenuEntry::Hide,
                MenuEntry::HideOthers,
                MenuEntry::ShowAll,
                MenuEntry::Separator,
                MenuEntry::Quit,
            ]
            &&& all[1].title == "Edit"@
            &&& all[1].entries == seq![
                MenuEntry::<Seq<char>>::Undo,
                MenuEntry::Redo,
                MenuEntry::Separator,
                MenuEntry::Cut,
                MenuEntry::Copy,
                MenuEntry::Paste,
                MenuEntry::SelectAll,
            ]
            &&& all[2].title == "View"@
            &&& all[2].entries == seq![MenuEntry::<Seq<char>>::Fullscreen]
            &&& all[3].title == "Window"@
            &&& all[3].entries == seq![
                MenuEntry::Minimize,
                MenuEntry::Maximize,
                MenuEntry::Separator,
                MenuEntry::Own("main-window"@, "Main Window"@, Some("CmdOrCtrl+0"@)),
                MenuEntry::Separator,
                MenuEntry::CloseWindow,
            ]
        }),
{
}

} // verus!
