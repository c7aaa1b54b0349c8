//! What holds of the windows across several requests: nothing is opened twice, and no label is
//! given twice.

use vstd::prelude::*;

use crate::assignments::{is_note_label, pending_key, shows_note, shows_workspace, NOTE_WINDOW_PREFIX};
use crate::text::{decimal, decimal_is_injective};
use crate::windows::{
    note_is_built, note_is_found, note_is_opened, note_is_removed, note_is_renamed, note_is_set,
    note_label, window_is_gone, with_note_window, with_workspace_window, workspace_is_built,
    workspace_is_found, workspace_is_opened, workspace_is_set, workspace_label, Found, Opening,
    WindowStateView, MAIN_WINDOW,
};

verus! {

/// Two windows never have the same label: neither two for workspaces, nor two for notes, nor one
/// of each, nor one of them and the main window.
pub proof fn labels_are_distinct(m: u32, n: u32)
    ensures
        workspace_label(m) == workspace_label(n) ==> m == n,
        note_label(m) == note_label(n) ==> m == n,
        workspace_label(m) != note_label(n),
        is_note_label(note_label(n)),
        !is_note_label(workspace_label(m)),
        workspace_label(m) != MAIN_WINDOW@,
        note_label(n) != MAIN_WINDOW@,
        !is_note_label(MAIN_WINDOW@),
{
    reveal_strlit("ws-");
    reveal_strlit("note-");
    reveal_strlit("main");
    let a = decimal(m as nat);
    let b = decimal(n as nat);
    decimal_is_injective(m as nat, n as nat);
    assert(workspace_label(m)[0] == 'w');
    assert(note_label(n)[0] == 'n');
    assert(workspace_label(m).skip(3) =~= a);
    assert(workspace_label(n).skip(3) =~= b);
    assert(note_label(m).skip(5) =~= a);
    assert(note_label(n).skip(5) =~= b);
    assert(note_label(n).take(5) =~= NOTE_WINDOW_PREFIX@);
    assert(NOTE_WINDOW_PREFIX@[0] == 'n');
    assert(MAIN_WINDOW@[0] == 'm');
}

/// While the window for a workspace is being made, a second request for the workspace makes no
/// other, and nobody who looks for the workspace is told that it is open nowhere.
pub proof fn a_workspace_is_not_opened_twice(
    before: WindowStateView,
    during: WindowStateView,
    after: WindowStateView,
    ws: Seq<char>,
    live: Set<Seq<char>>,
    later: Set<Seq<char>>,
    label: Seq<char>,
    n: u32,
    second: Opening<Seq<char>>,
    exclude: Option<Seq<char>>,
    found: Found<Seq<char>>,
)
    requires
        workspace_is_opened(before, during, ws, live, Opening::Create(label, n)),
    ensures
        workspace_is_opened(during, after, ws, later, second) ==> second
            == Opening::<Seq<char>>::Opening && after == during,
        workspace_is_found(during, after, ws, exclude, later, found) ==> found
            == Found::<Seq<char>>::Opening && after == during,
{
    assert(during.pending.contains(ws));
}

/// A workspace whose window was made and lives is found there, or in another living window that
/// shows it as a whole: it is not opened again.
pub proof fn an_open_workspace_is_found(
    before: WindowStateView,
    during: WindowStateView,
    after: WindowStateView,
    ws: Seq<char>,
    live: Set<Seq<char>>,
    later: Set<Seq<char>>,
    label: Seq<char>,
    n: u32,
    second: Opening<Seq<char>>,
)
    requires
        workspace_is_opened(before, during, ws, live, Opening::Create(label, n)),
        workspace_is_opened(workspace_is_built(during, ws, label, true), after, ws, later, second),
        later.contains(label),
    ensures
        second matches Opening::Window(other) && later.contains(other) && shows_workspace(
            after.labels,
            other,
            ws,
            None,
        ),
{
    let there = workspace_is_built(during, ws, label, true);
    labels_are_distinct(n, n);
    assert(shows_workspace(there.labels, label, ws, None));
    if let Opening::Create(l, k) = second {
        let kept = choose|kept: WindowStateView| #[trigger]
            workspace_is_found(there, kept, ws, None, later, Found::Nowhere) && after
                == with_workspace_window(kept, ws);
        assert(there.labels.contains_key(label));
        assert(kept.labels.contains_key(label));
        assert(shows_workspace(kept.labels, label, ws, None));
    }
}

/// A window that could not be made leaves no trace: nothing is noted as being opened, and its
/// label shows nothing.
pub proof fn a_failed_window_leaves_no_trace(
    before: WindowStateView,
    ws: Seq<char>,
    note: Seq<char>,
    label: Seq<char>,
)
    ensures
        ({
            let after = workspace_is_built(before, ws, label, false);
            !after.pending.contains(ws) && !after.labels.contains_key(label)
        }),
        ({
            let after = note_is_built(before, ws, note, label, false);
            !after.pending.contains(pending_key(ws, note)) && !after.labels.contains_key(label)
                && !after.notes.contains_key(label)
        }),
{
}

/// While the window for a note is being made, a second request for the note makes no other.
pub proof fn a_note_is_not_opened_twice(
    before: WindowStateView,
    during: WindowStateView,
    after: WindowStateView,
    ws: Seq<char>,
    note: Seq<char>,
    live: Set<Seq<char>>,
    later: Set<Seq<char>>,
    label: Seq<char>,
    n: u32,
    second: Opening<Seq<char>>,
)
    requires
        note_is_opened(before, during, ws, note, live, Opening::Create(label, n)),
        note_is_opened(during, after, ws, note, later, second),
    ensures
        second == Opening::<Seq<char>>::Opening,
        after == during,
{
    assert(during.pending.contains(pending_key(ws, note)));
}

/// A note whose window was made and lives is found there, or in another living window that shows
/// it: it is not opened again.
pub proof fn an_open_note_is_found(
    before: WindowStateView,
    during: WindowStateView,
    after: WindowStateView,
    ws: Seq<char>,
    note: Seq<char>,
    live: Set<Seq<char>>,
    later: Set<Seq<char>>,
    label: Seq<char>,
    n: u32,
    second: Opening<Seq<char>>,
)
    requires
        note_is_opened(before, during, ws, note, live, Opening::Create(label, n)),
        note_is_opened(
            note_is_built(during, ws, note, label, true),
            after,
            ws,
            note,
            later,
            second,
        ),
        later.contains(label),
    ensures
        second matches Opening::Window(other) && later.contains(other) && shows_note(
            after.labels,
            after.notes,
            other,
            ws,
            note,
        ),
{
    let there = note_is_built(during, ws, note, label, true);
    assert(shows_note(there.labels, there.notes, label, ws, note));
    if let Opening::Create(l, k) = second {
        let kept = choose|kept: WindowStateView| #[trigger]
            note_is_found(there, kept, ws, note, later, Found::Nowhere) && after
                == with_note_window(kept, ws, note);
        assert(there.labels.contains_key(label) && there.notes.contains_key(label));
        assert(kept.labels.contains_key(label) && kept.notes.contains_key(label));
        assert(shows_note(kept.labels, kept.notes, label, ws, note));
    }
}

/// A window that was destroyed is never the one that is brought to the front.
pub proof fn a_destroyed_window_is_not_found(
    before: WindowStateView,
    after: WindowStateView,
    ws: Seq<char>,
    note: Seq<char>,
    exclude: Option<Seq<char>>,
    live: Set<Seq<char>>,
    label: Seq<char>,
)
    requires
        !before.labels.contains_key(label),
    ensures
        !workspace_is_found(before, after, ws, exclude, live, Found::Window(label)),
        !note_is_found(before, after, ws, note, live, Found::Window(label)),
{
    if workspace_is_found(before, after, ws, exclude, live, Found::Window(label)) {
        assert(after.labels.contains_key(label));
    }
    if note_is_found(before, after, ws, note, live, Found::Window(label)) {
        assert(after.labels.contains_key(label));
    }
}

/// Whoever looks for a workspace is sent to a window that shows it as a whole: never to a window
/// with a single note, and never to the window that asks.
pub proof fn a_note_window_is_no_workspace_window(
    before: WindowStateView,
    after: WindowStateView,
    ws: Seq<char>,
    caller: Seq<char>,
    live: Set<Seq<char>>,
    label: Seq<char>,
)
    requires
        workspace_is_found(before, after, ws, Some(caller), live, Found::Window(label)),
    ensures
        !is_note_label(label),
        label != caller,
        live.contains(label),
        before.labels.contains_key(label) && before.labels[label] == ws,
{
    assert(after.labels.contains_key(label));
}

/// Whether the window `label` is the main window or one that was made.
pub open spec fn is_issued(state: WindowStateView, label: Seq<char>) -> bool {
    ||| label == MAIN_WINDOW@
    ||| exists|n: u32| n < state.next_ws && label == #[trigger] workspace_label(n)
    ||| exists|n: u32| n < state.next_note && label == #[trigger] note_label(n)
}

/// Whether only the main window and windows that were made show something.
pub open spec fn only_issued(state: WindowStateView) -> bool {
    &&& forall|l: Seq<char>| #[trigger] state.labels.contains_key(l) ==> is_issued(state, l)
    &&& forall|l: Seq<char>| #[trigger] state.notes.contains_key(l) ==> is_issued(state, l)
}

/// A window that is made gets a label that shows nothing yet, and then again only windows that
/// were made show something.
pub proof fn a_new_label_is_unused(
    before: WindowStateView,
    after: WindowStateView,
    ws: Seq<char>,
    note: Seq<char>,
    live: Set<Seq<char>>,
    label: Seq<char>,
    n: u32,
)
    requires
        only_issued(before),
        n < u32::MAX,
        workspace_is_opened(before, after, ws, live, Opening::Create(label, n)) || note_is_opened(
            before,
            after,
            ws,
            note,
            live,
            Opening::Create(label, n),
        ),
    ensures
        !before.labels.contains_key(label),
        !before.notes.contains_key(label),
        only_issued(after),
{
    assert forall|k: u32|
        (#[trigger] workspace_label(k) == label && k < before.next_ws) implies false by {
        labels_are_distinct(k, n);
    }
    assert forall|k: u32|
        (#[trigger] note_label(k) == label && k < before.next_note) implies false by {
        labels_are_distinct(k, n);
        labels_are_distinct(n, k);
    }
    labels_are_distinct(n, n);
    if workspace_is_opened(before, after, ws, live, Opening::Create(label, n)) {
        let kept = choose|kept: WindowStateView| #[trigger]
            workspace_is_found(before, kept, ws, None, live, Found::Nowhere) && after
                == with_workspace_window(kept, ws);
        assert(n < after.next_ws);
        assert forall|l: Seq<char>|
            (#[trigger] after.labels.contains_key(l) || after.notes.contains_key(l)) implies is_issued(
            after,
            l,
        ) by {
            if l != label {
                assert(kept.labels.contains_key(l) || kept.notes.contains_key(l));
                still_issued(before, after, l);
            }
        }
        assert forall|l: Seq<char>| #[trigger] after.notes.contains_key(l) implies is_issued(
            after,
            l,
        ) by {
            still_issued(before, after, l);
        }
    } else {
        let kept = choose|kept: WindowStateView| #[trigger]
            note_is_found(before, kept, ws, note, live, Found::Nowhere) && after
                == with_note_window(kept, ws, note);
        assert(n < after.next_note);
        assert forall|l: Seq<char>| #[trigger] after.labels.contains_key(l) implies is_issued(
            after,
            l,
        ) by {
            if l != label {
                assert(kept.labels.contains_key(l));
                still_issued(before, after, l);
            }
        }
        assert forall|l: Seq<char>| #[trigger] after.notes.contains_key(l) implies is_issued(
            after,
            l,
        ) by {
            if l != label {
                assert(kept.notes.contains_key(l));
                still_issued(before, after, l);
            }
        }
    }
}

/// Whether `after` assigns nothing to a window that `before` assigns nothing to, and the same windows
/// were made.
spec fn shows_no_more(before: WindowStateView, after: WindowStateView) -> bool {
    &&& after.next_ws == before.next_ws
    &&& after.next_note == before.next_note
    &&& forall|l: Seq<char>| #[trigger]
        after.labels.contains_key(l) ==> before.labels.contains_key(l)
    &&& forall|l: Seq<char>| #[trigger] after.notes.contains_key(l) ==> before.notes.contains_key(l)
}

proof fn no_more_are_issued(before: WindowStateView, after: WindowStateView)
    requires
        only_issued(before),
        shows_no_more(before, after),
    ensures
        only_issued(after),
{
    assert forall|l: Seq<char>| #[trigger] after.labels.contains_key(l) implies is_issued(
        after,
        l,
    ) by {
        still_issued(before, after, l);
    }
    assert forall|l: Seq<char>| #[trigger] after.notes.contains_key(l) implies is_issued(
        after,
        l,
    ) by {
        still_issued(before, after, l);
    }
}

/// At the beginning, when no window shows anything, only windows that were made do.
pub proof fn at_first_only_issued_windows_show_something(state: WindowStateView)
    requires
        state.labels == Map::<Seq<char>, Seq<char>>::empty(),
        state.notes == Map::<Seq<char>, Seq<char>>::empty(),
    ensures
        only_issued(state),
{
}

/// Looking for a workspace or a note, also to open it, leaves it so that only windows that were made
/// show something.
pub proof fn looking_keeps_to_issued_windows(
    before: WindowStateView,
    after: WindowStateView,
    ws: Seq<char>,
    note: Seq<char>,
    exclude: Option<Seq<char>>,
    live: Set<Seq<char>>,
    found: Found<Seq<char>>,
)
    requires
        only_issued(before),
        workspace_is_found(before, after, ws, exclude, live, found) || note_is_found(
            before,
            after,
            ws,
            note,
            live,
            found,
        ),
    ensures
        only_issued(after),
{
    no_more_are_issued(before, after);
}

/// That a window is there, or could not be made, leaves it so that only windows that were made show
/// something; so does that a window is gone.
pub proof fn building_and_destroying_keep_to_issued_windows(
    before: WindowStateView,
    ws: Seq<char>,
    note: Seq<char>,
    label: Seq<char>,
    is_there: bool,
)
    requires
        only_issued(before),
    ensures
        only_issued(workspace_is_built(before, ws, label, is_there)),
        only_issued(note_is_built(before, ws, note, label, is_there)),
        only_issued(window_is_gone(before, label)),
{
    no_more_are_issued(before, workspace_is_built(before, ws, label, is_there));
    no_more_are_issued(before, note_is_built(before, ws, note, label, is_there));
    no_more_are_issued(before, window_is_gone(before, label));
}

/// What a window that was made is told to show leaves it so that only windows that were made show
/// something; so does that it is told to show no note, and that a note has a new name or is gone,
/// whatever window that comes from.
pub proof fn setting_keeps_to_issued_windows(
    before: WindowStateView,
    label: Seq<char>,
    ws: Seq<char>,
    note: Seq<char>,
    new_note: Seq<char>,
)
    requires
        only_issued(before),
    ensures
        is_issued(before, label) ==> only_issued(workspace_is_set(before, label, ws)),
        is_issued(before, label) ==> only_issued(note_is_set(before, label, Some(note))),
        only_issued(note_is_set(before, label, None)),
        only_issued(note_is_renamed(before, label, note, new_note)),
        only_issued(note_is_removed(before, label, note)),
{
    no_more_are_issued(before, note_is_set(before, label, None));
    no_more_are_issued(before, note_is_renamed(before, label, note, new_note));
    no_more_are_issued(before, note_is_removed(before, label, note));
    if is_issued(before, label) {
        let shown = workspace_is_set(before, label, ws);
        assert forall|l: Seq<char>| is_issued(before, l) implies #[trigger] is_issued(shown, l) by {
            still_issued(before, shown, l);
        }
        let noted = note_is_set(before, label, Some(note));
        assert forall|l: Seq<char>| is_issued(before, l) implies #[trigger] is_issued(noted, l) by {
            still_issued(before, noted, l);
        }
    }
}

proof fn still_issued(before: WindowStateView, after: WindowStateView, l: Seq<char>)
    requires
        is_issued(before, l),
        before.next_ws <= after.next_ws,
        before.next_note <= after.next_note,
    ensures
        is_issued(after, l),
{
    if l != MAIN_WINDOW@ {
        if exists|n: u32| n < before.next_ws && l == #[trigger] workspace_label(n) {
            let n = choose|n: u32| n < before.next_ws && l == #[trigger] workspace_label(n);
            assert(n < after.next_ws && l == workspace_label(n));
        } else {
            let n = choose|n: u32| n < before.next_note && l == #[trigger] note_label(n);
            assert(n < after.next_note && l == note_label(n));
        }
    }
}

} // verus!
