//! The windows: which workspace and which note each of them shows, and which are being opened, so
//! that a workspace or a note that is open already is brought to the front and not opened twice.

use vstd::prelude::*;

use crate::assignments::{
    is_assigned, is_listed, is_shown_nowhere, lists, note_is_shown_nowhere, note_pending_key,
    pending_key, remap_note_windows, remapped, shows_note, shows_workspace, text_of,
    unassign_note_windows, unassigned, window_label_for_note, window_label_for_workspace,
    Assignments, NOTE_WINDOW_PREFIX,
};
use crate::string_map::StringMap;
use crate::text::{decimal, decimal_text, joined, number_after};

verus! {

/// What the labels of windows for a workspace begin with.
pub const WORKSPACE_WINDOW_PREFIX: &'static str = "ws-";

/// The label of the first window.
pub const MAIN_WINDOW: &'static str = "main";

/// After this many steps the places of note windows start over.
pub const CASCADE_STEPS: u32 = 8;

/// How far one step moves a note window to the right and down.
pub const CASCADE_SHIFT: u32 = 28;

/// What is known of the windows.
#[verifier::ext_equal]
pub struct WindowStateView {
    /// For each window the workspace that it shows.
    pub labels: Assignments,
    /// For each window that shows a single note that note.
    pub notes: Assignments,
    /// The workspaces, and the notes by their marks, whose windows are being opened.
    pub pending: Set<Seq<char>>,
    /// The number of the next workspace window.
    pub next_ws: u32,
    /// The number of the next note window.
    pub next_note: u32,
}

/// What is known of the windows.
pub struct WindowState {
    labels: StringMap<String>,
    notes: StringMap<String>,
    pending: StringMap<()>,
    next_ws: u32,
    next_note: u32,
}

impl View for WindowState {
    type V = WindowStateView;

    closed spec fn view(&self) -> WindowStateView {
        WindowStateView {
            labels: self.labels@,
            notes: self.notes@,
            pending: self.pending@.dom(),
            next_ws: self.next_ws,
            next_note: self.next_note,
        }
    }
}

/// Where something that is to be shown is open.
pub enum Found<S> {
    /// Its window is being opened.
    Opening,
    /// In the window with this label, which is to be brought to the front.
    Window(S),
    /// Nowhere.
    Nowhere,
}

/// Where something that is to be opened is open.
pub enum Opening<S> {
    /// Its window is being opened.
    Opening,
    /// In the window with this label, which is to be brought to the front.
    Window(S),
    /// Nowhere: a window with this label, the one with this number, has to be made. Once it is
    /// there, or could not be made, that has to be reported.
    Create(S, u32),
}

impl View for Found<String> {
    type V = Found<Seq<char>>;

    open spec fn view(&self) -> Found<Seq<char>> {
        match *self {
            Found::Opening => Found::Opening,
            Found::Window(label) => Found::Window(label@),
            Found::Nowhere => Found::Nowhere,
        }
    }
}

impl View for Opening<String> {
    type V = Opening<Seq<char>>;

    open spec fn view(&self) -> Opening<Seq<char>> {
        match *self {
            Opening::Opening => Opening::Opening,
            Opening::Window(label) => Opening::Window(label@),
            Opening::Create(label, n) => Opening::Create(label@, n),
        }
    }
}

/// The label of a window for a workspace.
pub open spec fn workspace_label(n: u32) -> Seq<char> {
    WORKSPACE_WINDOW_PREFIX@ + decimal(n as nat)
}

/// The label of a window for a note.
pub open spec fn note_label(n: u32) -> Seq<char> {
    NOTE_WINDOW_PREFIX@ + decimal(n as nat)
}

/// Whether `after` is `before` without some windows that are gone, each of them one that showed
/// the workspace `ws`.
pub open spec fn drops_dead_workspaces(
    before: Assignments,
    after: Assignments,
    ws: Seq<char>,
    exclude: Option<Seq<char>>,
    live: Set<Seq<char>>,
) -> bool {
    &&& forall|l: Seq<char>| #[trigger]
        after.contains_key(l) ==> before.contains_key(l) && after[l] == before[l]
    &&& forall|l: Seq<char>| #[trigger]
        before.contains_key(l) && !after.contains_key(l) ==> shows_workspace(
            before,
            l,
            ws,
            exclude,
        ) && !live.contains(l)
}

/// What looking for a window that shows `ws` gives: `before` and `after` are what is known of the
/// windows, `live` are the windows that there are. Windows that are gone may be forgotten on the
/// way; if none is found they all are.
pub open spec fn workspace_is_found(
    before: WindowStateView,
    after: WindowStateView,
    ws: Seq<char>,
    exclude: Option<Seq<char>>,
    live: Set<Seq<char>>,
    found: Found<Seq<char>>,
) -> bool {
    if before.pending.contains(ws) {
        found == Found::<Seq<char>>::Opening && after == before
    } else {
        &&& after == (WindowStateView { labels: after.labels, ..before })
        &&& drops_dead_workspaces(before.labels, after.labels, ws, exclude, live)
        &&& match found {
            Found::Opening => false,
            Found::Window(label) => shows_workspace(after.labels, label, ws, exclude)
                && live.contains(label),
            Found::Nowhere => is_shown_nowhere(after.labels, ws, exclude),
        }
    }
}

/// What opening the workspace `ws` in a window of its own does. A window that has to be made is
/// given its workspace, and noted as being opened, before it is there.
pub open spec fn workspace_is_opened(
    before: WindowStateView,
    after: WindowStateView,
    ws: Seq<char>,
    live: Set<Seq<char>>,
    opening: Opening<Seq<char>>,
) -> bool {
    match opening {
        Opening::Opening => workspace_is_found(before, after, ws, None, live, Found::Opening),
        Opening::Window(label) => workspace_is_found(
            before,
            after,
            ws,
            None,
            live,
            Found::Window(label),
        ),
        Opening::Create(label, n) => {
            &&& n == before.next_ws
            &&& label == workspace_label(n)
            &&& exists|kept: WindowStateView| #[trigger]
                workspace_is_found(before, kept, ws, None, live, Found::Nowhere) && after
                    == with_workspace_window(kept, ws)
        },
    }
}

/// The next workspace window is made for `ws`.
pub open spec fn with_workspace_window(state: WindowStateView, ws: Seq<char>) -> WindowStateView {
    WindowStateView {
        labels: state.labels.insert(workspace_label(state.next_ws), ws),
        pending: state.pending.insert(ws),
        next_ws: number_after(state.next_ws),
        ..state
    }
}

/// The window for `ws` is there, or could not be made.
pub open spec fn workspace_is_built(
    before: WindowStateView,
    ws: Seq<char>,
    label: Seq<char>,
    is_there: bool,
) -> WindowStateView {
    WindowStateView {
        labels: if is_there {
            before.labels
        } else {
            before.labels.remove(label)
        },
        pending: before.pending.remove(ws),
        ..before
    }
}

/// Whether `after` is `before` without some windows that are gone, each of them one that showed
/// the note.
pub open spec fn drops_dead_notes(
    before: WindowStateView,
    after: WindowStateView,
    ws: Seq<char>,
    note: Seq<char>,
    live: Set<Seq<char>>,
) -> bool {
    &&& forall|l: Seq<char>| #[trigger]
        after.labels.contains_key(l) ==> before.labels.contains_key(l) && after.labels[l]
            == before.labels[l]
    &&& forall|l: Seq<char>| #[trigger]
        after.notes.contains_key(l) ==> before.notes.contains_key(l) && after.notes[l]
            == before.notes[l]
    &&& forall|l: Seq<char>|
        is_forgotten(before, after, l) ==> #[trigger] shows_note(
            before.labels,
            before.notes,
            l,
            ws,
            note,
        ) && !live.contains(l) && !after.labels.contains_key(l) && !after.notes.contains_key(l)
}

proof fn forgetting_keeps_to_the_dead(
    before: WindowStateView,
    held: WindowStateView,
    after: WindowStateView,
    ws: Seq<char>,
    note: Seq<char>,
    live: Set<Seq<char>>,
    label: Seq<char>,
)
    requires
        drops_dead_notes(before, held, ws, note, live),
        shows_note(held.labels, held.notes, label, ws, note),
        !live.contains(label),
        after.labels == held.labels.remove(label),
        after.notes == held.notes.remove(label),
    ensures
        drops_dead_notes(before, after, ws, note, live),
{
    assert forall|l: Seq<char>| #[trigger] after.labels.contains_key(l) implies before.labels.contains_key(
        l,
    ) && after.labels[l] == before.labels[l] by {
        assert(held.labels.contains_key(l));
    }
    assert forall|l: Seq<char>| #[trigger] after.notes.contains_key(l) implies before.notes.contains_key(
        l,
    ) && after.notes[l] == before.notes[l] by {
        assert(held.notes.contains_key(l));
    }
    assert forall|l: Seq<char>| is_forgotten(before, after, l) implies #[trigger] shows_note(
        before.labels,
        before.notes,
        l,
        ws,
        note,
    ) && !live.contains(l) && !after.labels.contains_key(l) && !after.notes.contains_key(l) by {
        if l == label {
            assert(held.labels.contains_key(l) && held.notes.contains_key(l));
        } else {
            assert(is_forgotten(before, held, l));
            let shown = shows_note(before.labels, before.notes, l, ws, note);
            assert(shown);
        }
    }
}

/// Whether an assignment of the window `label` was dropped.
pub open spec fn is_forgotten(
    before: WindowStateView,
    after: WindowStateView,
    label: Seq<char>,
) -> bool {
    (before.labels.contains_key(label) && !after.labels.contains_key(label)) || (
    before.notes.contains_key(label) && !after.notes.contains_key(label))
}

/// What looking for a window that shows `note` of the workspace `ws` gives.
pub open spec fn note_is_found(
    before: WindowStateView,
    after: WindowStateView,
    ws: Seq<char>,
    note: Seq<char>,
    live: Set<Seq<char>>,
    found: Found<Seq<char>>,
) -> bool {
    if before.pending.contains(pending_key(ws, note)) {
        found == Found::<Seq<char>>::Opening && after == before
    } else {
        &&& after == (WindowStateView { labels: after.labels, notes: after.notes, ..before })
        &&& drops_dead_notes(before, after, ws, note, live)
        &&& match found {
            Found::Opening => false,
            Found::Window(label) => shows_note(after.labels, after.notes, label, ws, note)
                && live.contains(label),
            Found::Nowhere => note_is_shown_nowhere(after.labels, after.notes, ws, note),
        }
    }
}

/// What opening `note` of the workspace `ws` in a window of its own does.
pub open spec fn note_is_opened(
    before: WindowStateView,
    after: WindowStateView,
    ws: Seq<char>,
    note: Seq<char>,
    live: Set<Seq<char>>,
    opening: Opening<Seq<char>>,
) -> bool {
    match opening {
        Opening::Opening => note_is_found(before, after, ws, note, live, Found::Opening),
        Opening::Window(label) => note_is_found(
            before,
            after,
            ws,
            note,
            live,
            Found::Window(label),
        ),
        Opening::Create(label, n) => {
            &&& n == before.next_note
            &&& label == note_label(n)
            &&& exists|kept: WindowStateView| #[trigger]
                note_is_found(before, kept, ws, note, live, Found::Nowhere) && after
                    == with_note_window(kept, ws, note)
        },
    }
}

/// The next note window is made for `note` of the workspace `ws`.
pub open spec fn with_note_window(
    state: WindowStateView,
    ws: Seq<char>,
    note: Seq<char>,
) -> WindowStateView {
    WindowStateView {
        labels: state.labels.insert(note_label(state.next_note), ws),
        notes: state.notes.insert(note_label(state.next_note), note),
        pending: state.pending.insert(pending_key(ws, note)),
        next_note: number_after(state.next_note),
        ..state
    }
}

/// The window for the note is there, or could not be made.
pub open spec fn note_is_built(
    before: WindowStateView,
    ws: Seq<char>,
    note: Seq<char>,
    label: Seq<char>,
    is_there: bool,
) -> WindowStateView {
    WindowStateView {
        labels: if is_there {
            before.labels
        } else {
            before.labels.remove(label)
        },
        notes: if is_there {
            before.notes
        } else {
            before.notes.remove(label)
        },
        pending: before.pending.remove(pending_key(ws, note)),
        ..before
    }
}

/// The window shows the workspace `ws` from now on.
pub open spec fn workspace_is_set(
    before: WindowStateView,
    label: Seq<char>,
    ws: Seq<char>,
) -> WindowStateView {
    WindowStateView { labels: before.labels.insert(label, ws), ..before }
}

/// The window shows this note from now on, or no note.
pub open spec fn note_is_set(
    before: WindowStateView,
    label: Seq<char>,
    note: Option<Seq<char>>,
) -> WindowStateView {
    WindowStateView {
        notes: match note {
            Some(id) => before.notes.insert(label, id),
            None => before.notes.remove(label),
        },
        ..before
    }
}

/// A note of the workspace that the window `caller` shows has a new name.
pub open spec fn note_is_renamed(
    before: WindowStateView,
    caller: Seq<char>,
    old_id: Seq<char>,
    new_id: Seq<char>,
) -> WindowStateView {
    WindowStateView {
        notes: if before.labels.contains_key(caller) {
            remapped(before.labels, before.notes, before.labels[caller], old_id, new_id)
        } else {
            before.notes
        },
        ..before
    }
}

/// A note of the workspace that the window `caller` shows is gone.
pub open spec fn note_is_removed(
    before: WindowStateView,
    caller: Seq<char>,
    note: Seq<char>,
) -> WindowStateView {
    WindowStateView {
        notes: if before.labels.contains_key(caller) {
            unassigned(before.labels, before.notes, before.labels[caller], note)
        } else {
            before.notes
        },
        ..before
    }
}

/// The window is gone.
pub open spec fn window_is_gone(before: WindowStateView, label: Seq<char>) -> WindowStateView {
    WindowStateView {
        labels: before.labels.remove(label),
        notes: before.notes.remove(label),
        ..before
    }
}

/// The texts in a list.
pub open spec fn listed(list: Seq<String>) -> Set<Seq<char>> {
    Set::new(|text: Seq<char>| is_listed(list, text))
}

/// How far the note window with this number stands to the right of the place of the first one, and
/// below it.
pub fn cascade_offset(number: u32) -> (res: u32)
    requires
        number >= 1,
    ensures
        res == ((number - 1) % 8) * 28,
{
    ((number - 1) % CASCADE_STEPS) * CASCADE_SHIFT
}

impl WindowState {
    /// No window shows anything yet.
    pub fn new() -> (res: Self)
        ensures
            res@.labels == Map::<Seq<char>, Seq<char>>::empty(),
            res@.notes == Map::<Seq<char>, Seq<char>>::empty(),
            res@.pending == Set::<Seq<char>>::empty(),
            res@.next_ws == 1,
            res@.next_note == 1,
    {
        let res = WindowState {
            labels: StringMap::new(),
            notes: StringMap::new(),
            pending: StringMap::new(),
            next_ws: 1,
            next_note: 1,
        };
        assert(res@.pending =~= Set::<Seq<char>>::empty());
        res
    }

    /// The workspace that the window shows.
    pub fn window_workspace(&self, label: &str) -> (res: Option<String>)
        ensures
            match res {
                Some(ws) => is_assigned(self@.labels, label@, ws@),
                None => !self@.labels.contains_key(label@),
            },
    {
        match self.labels.get(label) {
            Some(ws) => Some(ws.clone()),
            None => None,
        }
    }

    /// The window shows the workspace `ws_id` from now on.
    pub fn set_window_workspace(&mut self, label: &str, ws_id: String)
        ensures
            final(self)@ == workspace_is_set(old(self)@, label@, ws_id@),
    {
        self.labels.insert(label.to_owned(), ws_id);
    }

    /// The note that the window shows.
    pub fn window_note(&self, label: &str) -> (res: Option<String>)
        ensures
            match res {
                Some(note) => is_assigned(self@.notes, label@, note@),
                None => !self@.notes.contains_key(label@),
            },
    {
        match self.notes.get(label) {
            Some(note) => Some(note.clone()),
            None => None,
        }
    }

    /// The window shows the note `note_id` from now on, or no note.
    pub fn set_window_note(&mut self, label: &str, note_id: Option<String>)
        ensures
            final(self)@ == note_is_set(
                old(self)@,
                label@,
                match note_id {
                    Some(id) => Some(id@),
                    None => None,
                },
            ),
    {
        match note_id {
            Some(id) => {
                self.notes.insert(label.to_owned(), id);
            },
            None => {
                let _ = self.notes.remove(label);
            },
        }
    }

    /// Looks for a living window that shows the workspace as a whole and forgets the dead ones
    /// that it meets.
    fn find_workspace(&mut self, ws_id: &str, exclude: Option<&str>, live: &Vec<String>) -> (res:
        Found<String>)
        ensures
            workspace_is_found(
                old(self)@,
                final(self)@,
                ws_id@,
                text_of(exclude),
                listed(live@),
                res@,
            ),
    {
        if self.pending.contains_key(ws_id) {
            return Found::Opening;
        }
        let ghost before = self@;
        let mut left: usize = self.labels.len();
        loop
            invariant
                self@ == (WindowStateView { labels: self@.labels, ..before }),
                before == old(self)@,
                !before.pending.contains(ws_id@),
                drops_dead_workspaces(
                    before.labels,
                    self@.labels,
                    ws_id@,
                    text_of(exclude),
                    listed(live@),
                ),
                self@.labels.dom().finite(),
                left == self@.labels.dom().len(),
            decreases left,
        {
            match window_label_for_workspace(&self.labels, ws_id, exclude) {
                Some(label) => {
                    if lists(live, label.as_str()) {
                        return Found::Window(label);
                    }
                    let _ = self.labels.remove(label.as_str());
                    left = self.labels.len();
                },
                None => {
                    return Found::Nowhere;
                },
            }
        }
    }

    /// Where the workspace `ws_id` is open, other than in the window `caller`, if anywhere; `live`
    /// are the labels of the windows that there are.
    pub fn focus_workspace_window(&mut self, caller: &str, ws_id: &str, live: &Vec<String>) -> (res:
        Found<String>)
        ensures
            workspace_is_found(
                old(self)@,
                final(self)@,
                ws_id@,
                Some(caller@),
                listed(live@),
                res@,
            ),
    {
        self.find_workspace(ws_id, Some(caller), live)
    }

    /// Opens the workspace `ws_id` in a window of its own, unless it is open already.
    pub fn open_workspace_window(&mut self, ws_id: &str, live: &Vec<String>) -> (res: Opening<
        String,
    >)
        ensures
            workspace_is_opened(old(self)@, final(self)@, ws_id@, listed(live@), res@),
    {
        match self.find_workspace(ws_id, None, live) {
            Found::Opening => Opening::Opening,
            Found::Window(label) => Opening::Window(label),
            Found::Nowhere => {
                let ghost kept = self@;
                let n: u32 = self.next_ws;
                let digits = decimal_text(n);
                let label = joined(WORKSPACE_WINDOW_PREFIX, digits.as_str());
                self.next_ws = n.wrapping_add(1);
                self.labels.insert(label.clone(), ws_id.to_owned());
                self.pending.insert(ws_id.to_owned(), ());
                assert(self@ =~= with_workspace_window(kept, ws_id@));
                Opening::Create(label, n)
            },
        }
    }

    /// The window `label` for the workspace `ws_id` is there, or could not be made: its workspace
    /// is no longer being opened, and a window that could not be made shows nothing. The result is
    /// what the request to open it is answered: that no window was there before, or the error.
    pub fn workspace_window_built(
        &mut self,
        ws_id: &str,
        label: &str,
        built: Result<(), String>,
    ) -> (res: Result<bool, String>)
        ensures
            final(self)@ == workspace_is_built(old(self)@, ws_id@, label@, built is Ok),
            match built {
                Ok(_) => res == Ok::<bool, String>(false),
                Err(text) => res == Err::<bool, String>(text),
            },
    {
        let _ = self.pending.remove(ws_id);
        let ghost noted = self@;
        assert(noted.pending =~= old(self)@.pending.remove(ws_id@));
        match built {
            Ok(_) => Ok(false),
            Err(text) => {
                let _ = self.labels.remove(label);
                Err(text)
            },
        }
    }

    /// Looks for a living window that shows the note and forgets the dead ones that it meets.
    fn find_note(&mut self, ws_id: &str, note_id: &str, live: &Vec<String>) -> (res: Found<String>)
        ensures
            note_is_found(old(self)@, final(self)@, ws_id@, note_id@, listed(live@), res@),
    {
        let key = note_pending_key(ws_id, note_id);
        if self.pending.contains_key(key.as_str()) {
            return Found::Opening;
        }
        let ghost before = self@;
        let mut left: usize = self.notes.len();
        loop
            invariant
                self@ == (WindowStateView {
                    labels: self@.labels,
                    notes: self@.notes,
                    ..before
                }),
                before == old(self)@,
                !before.pending.contains(pending_key(ws_id@, note_id@)),
                drops_dead_notes(before, self@, ws_id@, note_id@, listed(live@)),
                self@.notes.dom().finite(),
                left == self@.notes.dom().len(),
            decreases left,
        {
            match window_label_for_note(&self.labels, &self.notes, ws_id, note_id) {
                Some(label) => {
                    if lists(live, label.as_str()) {
                        return Found::Window(label);
                    }
                    let ghost held = self@;
                    let _ = self.labels.remove(label.as_str());
                    let _ = self.notes.remove(label.as_str());
                    proof {
                        assert(self@.labels == held.labels.remove(label@));
                        assert(self@.notes == held.notes.remove(label@));
                        forgetting_keeps_to_the_dead(
                            before,
                            held,
                            self@,
                            ws_id@,
                            note_id@,
                            listed(live@),
                            label@,
                        );
                    }
                    left = self.notes.len();
                },
                None => {
                    return Found::Nowhere;
                },
            }
        }
    }

    /// Opens the note `note_id` of the workspace `ws_id` in a window of its own, unless it is open
    /// in one already; `live` are the labels of the windows that there are.
    pub fn open_note_window(&mut self, ws_id: &str, note_id: &str, live: &Vec<String>) -> (res:
        Opening<String>)
        ensures
            note_is_opened(old(self)@, final(self)@, ws_id@, note_id@, listed(live@), res@),
    {
        match self.find_note(ws_id, note_id, live) {
            Found::Opening => Opening::Opening,
            Found::Window(label) => Opening::Window(label),
            Found::Nowhere => {
                let ghost kept = self@;
                let n: u32 = self.next_note;
                let digits = decimal_text(n);
                let label = joined(NOTE_WINDOW_PREFIX, digits.as_str());
                self.next_note = n.wrapping_add(1);
                self.labels.insert(label.clone(), ws_id.to_owned());
                self.notes.insert(label.clone(), note_id.to_owned());
                self.pending.insert(note_pending_key(ws_id, note_id), ());
                assert(self@ =~= with_note_window(kept, ws_id@, note_id@));
                Opening::Create(label, n)
            },
        }
    }

    /// The window `label` for the note is there, or could not be made.
    pub fn note_window_built(
        &mut self,
        ws_id: &str,
        note_id: &str,
        label: &str,
        built: Result<(), String>,
    ) -> (res: Result<bool, String>)
        ensures
            final(self)@ == note_is_built(old(self)@, ws_id@, note_id@, label@, built is Ok),
            match built {
                Ok(_) => res == Ok::<bool, String>(false),
                Err(text) => res == Err::<bool, String>(text),
            },
    {
        let key = note_pending_key(ws_id, note_id);
        let _ = self.pending.remove(key.as_str());
        let ghost noted = self@;
        assert(noted.pending =~= old(self)@.pending.remove(key@));
        match built {
            Ok(_) => Ok(false),
            Err(text) => {
                let _ = self.labels.remove(label);
                let _ = self.notes.remove(label);
                Err(text)
            },
        }
    }

    /// The note `old_id` of the workspace that the window `caller` shows is called `new_id` from
    /// now on.
    pub fn window_note_renamed(&mut self, caller: &str, old_id: &str, new_id: &str)
        ensures
            final(self)@ == note_is_renamed(old(self)@, caller@, old_id@, new_id@),
    {
        if let Some(ws_id) = self.window_workspace(caller) {
            remap_note_windows(&self.labels, &mut self.notes, ws_id.as_str(), old_id, new_id);
        }
    }

    /// The note `note_id` of the workspace that the window `caller` shows is gone.
    pub fn window_note_removed(&mut self, caller: &str, note_id: &str)
        ensures
            final(self)@ == note_is_removed(old(self)@, caller@, note_id@),
    {
        if let Some(ws_id) = self.window_workspace(caller) {
            unassign_note_windows(&self.labels, &mut self.notes, ws_id.as_str(), note_id);
        }
    }

    /// The window is gone: it shows nothing any more.
    pub fn window_destroyed(&mut self, label: &str)
        ensures
            final(self)@ == window_is_gone(old(self)@, label@),
    {
        let _ = self.labels.remove(label);
        let _ = self.notes.remove(label);
    }
}

} // verus!
