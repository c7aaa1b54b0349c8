//! What the application does with links, menus and window events.

use vstd::prelude::*;

use crate::fsio::{stringify, OsFault};
use crate::text::{joined, quoted, quoting, same_text, starts_with};
use crate::windows::MAIN_WINDOW;

verus! {

/// What a link that may be opened begins with.
pub open spec fn is_openable(url: Seq<char>) -> bool {
    ||| "http://"@.is_prefix_of(url)
    ||| "https://"@.is_prefix_of(url)
    ||| "mailto:"@.is_prefix_of(url)
    ||| "tel:"@.is_prefix_of(url)
}

/// Whether the link may be handed to the system: one to the web, to a mail address or to a phone
/// number. Any other is refused, so that no note can start a file or an application.
pub fn open_external(url: &str) -> (res: Result<(), String>)
    ensures
        res is Ok <==> is_openable(url@),
        res matches Err(text) ==> text@ == quoting("refusing to open "@, url@, Seq::empty()),
{
    if starts_with(url, "http://") || starts_with(url, "https://") || starts_with(url, "mailto:")
        || starts_with(url, "tel:") {
        Ok(())
    } else {
        let text = quoted("refusing to open ", url, "");
        proof {
            reveal_strlit("");
            assert(""@ =~= Seq::<char>::empty());
        }
        Err(text)
    }
}

/// What the request to open a link is answered once the system was asked: `launched` says whether
/// it succeeded, or why it could not be asked.
pub fn external_opened(url: &str, launched: Result<bool, OsFault>) -> (res: Result<(), String>)
    ensures
        match launched {
            Ok(success) => if success {
                res is Ok
            } else {
                res matches Err(text) && text@ == quoting(
                    "could not open "@,
                    url@,
                    Seq::empty(),
                )
            },
            Err(fault) => res matches Err(text) && text@ == fault@.text,
        },
{
    match launched {
        Ok(success) => if success {
            Ok(())
        } else {
            let text = quoted("could not open ", url, "");
            proof {
                reveal_strlit("");
                assert(""@ =~= Seq::<char>::empty());
            }
            Err(text)
        },
        Err(fault) => Err(stringify(fault)),
    }
}

/// A window as the menu sees it.
pub struct WindowInfo {
    pub label: String,
    pub focused: bool,
    pub visible: bool,
}

/// Whether one of the windows has the focus.
pub open spec fn has_focus(windows: Seq<WindowInfo>) -> bool {
    exists|i: int| 0 <= i < windows.len() && (#[trigger] windows[i]).focused
}

/// Whether a choice from the menu is for the window `label`: it has the focus, or no window has
/// and it can be seen.
pub open spec fn is_menu_target(windows: Seq<WindowInfo>, label: Seq<char>) -> bool {
    exists|i: int|
        0 <= i < windows.len() && (#[trigger] windows[i]).label@ == label && (windows[i].focused
            || (windows[i].visible && !has_focus(windows)))
}

/// Whether no window has the focus and none can be seen.
pub open spec fn has_no_menu_target(windows: Seq<WindowInfo>) -> bool {
    forall|i: int|
        0 <= i < windows.len() ==> !(#[trigger] windows[i]).focused && !windows[i].visible
}

/// The window that a choice from the menu is for; which one, if there are several, is left open.
pub fn menu_target(windows: &Vec<WindowInfo>) -> (res: Option<String>)
    ensures
        match res {
            Some(label) => is_menu_target(windows@, label@),
            None => has_no_menu_target(windows@),
        },
{
    let mut i: usize = 0;
    while i < windows.len()
        invariant
            i <= windows@.len(),
            forall|k: int| 0 <= k < i ==> !(#[trigger] windows@[k]).focused,
        decreases windows@.len() - i,
    {
        if windows[i].focused {
            let label = windows[i].label.clone();
            assert(windows@[i as int].label@ == label@);
            return Some(label);
        }
        i = i + 1;
    }
    assert(!has_focus(windows@));
    let mut j: usize = 0;
    while j < windows.len()
        invariant
            j <= windows@.len(),
            !has_focus(windows@),
            forall|k: int| 0 <= k < j ==> !(#[trigger] windows@[k]).visible,
        decreases windows@.len() - j,
    {
        if windows[j].visible {
            let label = windows[j].label.clone();
            assert(windows@[j as int].label@ == label@);
            return Some(label);
        }
        j = j + 1;
    }
    None
}

/// The menu item that leads to the workspace of the window.
pub const MENU_MAIN_WINDOW: &'static str = "main-window";

/// The menu item that tells about the application.
pub const MENU_ABOUT: &'static str = "about";

/// What a choice from the menu leads to.
pub enum MenuAction {
    Nothing,
    /// Tell this window to bring its workspace to the front.
    GoToWorkspace(String),
    /// Bring the main window to the front.
    ShowMain,
    /// Focus this window and tell it to show what the application is.
    About(String),
    /// Bring the main window, if there is one, to the front and tell it to show what the
    /// application is.
    AboutInMain,
}

/// What the choice of the menu item `id` leads to; `windows` are all windows.
pub fn menu_event(id: &str, windows: &Vec<WindowInfo>) -> (res: MenuAction)
    ensures
        if id@ == MENU_MAIN_WINDOW@ {
            match res {
                MenuAction::GoToWorkspace(label) => is_menu_target(windows@, label@),
                MenuAction::ShowMain => has_no_menu_target(windows@),
                _ => false,
            }
        } else if id@ == MENU_ABOUT@ {
            match res {
                MenuAction::About(label) => is_menu_target(windows@, label@),
                MenuAction::AboutInMain => has_no_menu_target(windows@),
                _ => false,
            }
        } else {
            res is Nothing
        },
{
    if same_text(id, MENU_MAIN_WINDOW) {
        match menu_target(windows) {
            Some(label) => MenuAction::GoToWorkspace(label),
            None => MenuAction::ShowMain,
        }
    } else if same_text(id, MENU_ABOUT) {
        match menu_target(windows) {
            Some(label) => MenuAction::About(label),
            None => MenuAction::AboutInMain,
        }
    } else {
        MenuAction::Nothing
    }
}

/// Whether a window that is asked to close is hidden in place of being closed: the main window is,
/// and the application goes on.
pub fn hides_on_close(label: &str) -> (res: bool)
    ensures
        res == (label@ == MAIN_WINDOW@),
{
    same_text(label, MAIN_WINDOW)
}

/// Whether the main window is brought to the front when the application is asked for again: only
/// where no window can be seen.
pub fn shows_main_on_reopen(has_visible_windows: bool) -> (res: bool)
    ensures
        res == !has_visible_windows,
{
    !has_visible_windows
}

/// The color behind a page that is not there yet, as red, green, blue and opacity. Where it is not
/// known whether the theme is dark it is taken to be.
pub fn backdrop(is_dark: Option<bool>) -> (res: (u8, u8, u8, u8))
    ensures
        res == if is_dark == Some(false) {
            (255u8, 255u8, 255u8, 255u8)
        } else {
            (33u8, 30u8, 26u8, 255u8)
        },
{
    match is_dark {
        Some(dark) => if dark {
            (33, 30, 26, 255)
        } else {
            (255, 255, 255, 255)
        },
        None => (33, 30, 26, 255),
    }
}

/// An item of a menu. What the system provides has no text of its own.
pub enum MenuEntry<S> {
    Separator,
    Services,
    Hide,
    HideOthers,
    ShowAll,
    Quit,
    Undo,
    Redo,
    Cut,
    Copy,
    Paste,
    SelectAll,
    Fullscreen,
    Minimize,
    Maximize,
    CloseWindow,
    /// An item of the application: its id, its text and the keys that stand for it.
    Own(S, S, Option<S>),
}

/// A menu with its items.
pub struct Submenu<S, L> {
    pub title: S,
    pub entries: L,
}

impl View for MenuEntry<String> {
    type V = MenuEntry<Seq<char>>;

    open spec fn view(&self) -> MenuEntry<Seq<char>> {
        match *self {
            MenuEntry::Separator => MenuEntry::Separator,
            MenuEntry::Services => MenuEntry::Services,
            MenuEntry::Hide => MenuEntry::Hide,
            MenuEntry::HideOthers => MenuEntry::HideOthers,
            MenuEntry::ShowAll => MenuEntry::ShowAll,
            MenuEntry::Quit => MenuEntry::Quit,
            MenuEntry::Undo => MenuEntry::Undo,
            MenuEntry::Redo => MenuEntry::Redo,
            MenuEntry::Cut => MenuEntry::Cut,
            MenuEntry::Copy => MenuEntry::Copy,
            MenuEntry::Paste => MenuEntry::Paste,
            MenuEntry::SelectAll => MenuEntry::SelectAll,
            MenuEntry::Fullscreen => MenuEntry::Fullscreen,
            MenuEntry::Minimize => MenuEntry::Minimize,
            MenuEntry::Maximize => MenuEntry::Maximize,
            MenuEntry::CloseWindow => MenuEntry::CloseWindow,
            MenuEntry::Own(id, title, keys) => MenuEntry::Own(
                id@,
                title@,
                match keys {
                    Some(k) => Some(k@),
                    None => None,
                },
            ),
        }
    }
}

/// The items of a menu.
pub open spec fn entries_view(entries: Seq<MenuEntry<String>>) -> Seq<MenuEntry<Seq<char>>> {
    Seq::new(entries.len(), |i: int| entries[i]@)
}

impl View for Submenu<String, Vec<MenuEntry<String>>> {
    type V = Submenu<Seq<char>, Seq<MenuEntry<Seq<char>>>>;

    open spec fn view(&self) -> Submenu<Seq<char>, Seq<MenuEntry<Seq<char>>>> {
        Submenu { title: self.title@, entries: entries_view(self.entries@) }
    }
}

/// The menus of the application called `name`.
pub open spec fn menus(name: Seq<char>) -> Seq<Submenu<Seq<char>, Seq<MenuEntry<Seq<char>>>>> {
    seq![
        Submenu {
            title: name,
            entries: seq![
                MenuEntry::Own(MENU_ABOUT@, "About "@ + name, None),
                MenuEntry::Separator,
                MenuEntry::Services,
                MenuEntry::Separator,
                MenuEntry::Hide,
                MenuEntry::HideOthers,
                MenuEntry::ShowAll,
                MenuEntry::Separator,
                MenuEntry::Quit,
            ],
        },
        Submenu {
            title: "Edit"@,
            entries: seq![
                MenuEntry::Undo,
                MenuEntry::Redo,
                MenuEntry::Separator,
                MenuEntry::Cut,
                MenuEntry::Copy,
                MenuEntry::Paste,
                MenuEntry::SelectAll,
            ],
        },
        Submenu { title: "View"@, entries: seq![MenuEntry::Fullscreen] },
        Submenu {
            title: "Window"@,
            entries: seq![
                MenuEntry::Minimize,
                MenuEntry::Maximize,
                MenuEntry::Separator,
                MenuEntry::Own(MENU_MAIN_WINDOW@, "Main Window"@, Some("CmdOrCtrl+0"@)),
                MenuEntry::Separator,
                MenuEntry::CloseWindow,
            ],
        },
    ]
}

/// The menus of the application called `name`.
pub fn build_menu(name: &str) -> (res: Vec<Submenu<String, Vec<MenuEntry<String>>>>)
    ensures
        res@.len() == menus(name@).len(),
        forall|i: int| 0 <= i < res@.len() ==> (#[trigger] res@[i])@ == menus(name@)[i],
{
    let about = MenuEntry::Own(MENU_ABOUT.to_owned(), joined("About ", name), None);
    let app_entries = vec![
        about,
        MenuEntry::Separator,
        MenuEntry::Services,
        MenuEntry::Separator,
        MenuEntry::Hide,
        MenuEntry::HideOthers,
        MenuEntry::ShowAll,
        MenuEntry::Separator,
        MenuEntry::Quit,
    ];
    let edit_entries = vec![
        MenuEntry::Undo,
        MenuEntry::Redo,
        MenuEntry::Separator,
        MenuEntry::Cut,
        MenuEntry::Copy,
        MenuEntry::Paste,
        MenuEntry::SelectAll,
    ];
    let view_entries = vec![MenuEntry::Fullscreen];
    let main_window = MenuEntry::Own(
        MENU_MAIN_WINDOW.to_owned(),
        "Main Window".to_owned(),
        Some("CmdOrCtrl+0".to_owned()),
    );
    let window_entries = vec![
        MenuEntry::Minimize,
        MenuEntry::Maximize,
        MenuEntry::Separator,
        main_window,
        MenuEntry::Separator,
        MenuEntry::CloseWindow,
    ];
    assert(entries_view(app_entries@) =~= menus(name@)[0].entries);
    assert(entries_view(edit_entries@) =~= menus(name@)[1].entries);
    assert(entries_view(view_entries@) =~= menus(name@)[2].entries);
    assert(entries_view(window_entries@) =~= menus(name@)[3].entries);
    vec![
        Submenu { title: name.to_owned(), entries: app_entries },
        Submenu { title: "Edit".to_owned(), entries: edit_entries },
        Submenu { title: "View".to_owned(), entries: view_entries },
        Submenu { title: "Window".to_owned(), entries: window_entries },
    ]
}

} // verus!
