//! Links, menus and window events.

use gravity_notes::fsio::IoFault;
use gravity_notes::shell::{
    backdrop, build_menu, external_opened, hides_on_close, menu_event, menu_target, open_external,
    shows_main_on_reopen, MenuAction, MenuEntry, WindowInfo,
};

#[test]
fn only_links_to_the_web_to_mail_and_to_phones_are_opened() {
    for url in ["http://a", "https://a", "mailto:a@b", "tel:1"] {
        assert_eq!(open_external(url), Ok(()));
    }
    for url in ["file:///etc/passwd", "/Applications", "HTTP://a", "javascript:1", "http:/a", ""] {
        assert_eq!(open_external(url), Err(format!("refusing to open \"{url}\"")));
    }
}

#[test]
fn the_outcome_of_opening_a_link_is_reported() {
    assert_eq!(external_opened("tel:1", Ok(true)), Ok(()));
    assert_eq!(external_opened("tel:1", Ok(false)), Err("could not open \"tel:1\"".to_string()));
    let fault = IoFault { not_found: true, text: "no such program".to_string() };
    assert_eq!(external_opened("tel:1", Err(fault)), Err("no such program".to_string()));
}

fn window(label: &str, focused: bool, visible: bool) -> WindowInfo {
    WindowInfo { label: label.to_string(), focused, visible }
}

#[test]
fn a_menu_choice_goes_to_the_focused_window_or_to_one_that_can_be_seen() {
    let both = vec![window("main", false, true), window("ws-1", true, true)];
    assert_eq!(menu_target(&both), Some("ws-1".to_string()));
    let unfocused = vec![window("main", false, false), window("ws-1", false, true)];
    assert_eq!(menu_target(&unfocused), Some("ws-1".to_string()));
    let hidden = vec![window("main", false, false)];
    assert_eq!(menu_target(&hidden), None);

    assert!(matches!(menu_event("main-window", &both), MenuAction::GoToWorkspace(l) if l == "ws-1"));
    assert!(matches!(menu_event("main-window", &hidden), MenuAction::ShowMain));
    assert!(matches!(menu_event("about", &both), MenuAction::About(l) if l == "ws-1"));
    assert!(matches!(menu_event("about", &hidden), MenuAction::AboutInMain));
    assert!(matches!(menu_event("copy", &both), MenuAction::Nothing));
}

#[test]
fn only_the_main_window_hides_when_it_is_closed() {
    assert!(hides_on_close("main"));
    assert!(!hides_on_close("ws-1"));
}

#[test]
fn the_main_window_comes_back_where_nothing_can_be_seen() {
    assert!(shows_main_on_reopen(false));
    assert!(!shows_main_on_reopen(true));
}

#[test]
fn an_unknown_theme_is_taken_to_be_dark() {
    assert_eq!(backdrop(Some(true)), (33, 30, 26, 255));
    assert_eq!(backdrop(None), (33, 30, 26, 255));
    assert_eq!(backdrop(Some(false)), (255, 255, 255, 255));
}

#[test]
fn the_menus_are_in_order() {
    let menus = build_menu("Gravity Notes");
    let titles: Vec<&str> = menus.iter().map(|m| m.title.as_str()).collect();
    assert_eq!(titles, vec!["Gravity Notes", "Edit", "View", "Window"]);
    let sizes: Vec<usize> = menus.iter().map(|m| m.entries.len()).collect();
    assert_eq!(sizes, vec![9, 7, 1, 6]);
    let MenuEntry::Own(id, title, keys) = &menus[0].entries[0] else { panic!() };
    assert_eq!((id.as_str(), title.as_str()), ("about", "About Gravity Notes"));
    assert!(keys.is_none());
    let MenuEntry::Own(id, title, keys) = &menus[3].entries[3] else { panic!() };
    assert_eq!((id.as_str(), title.as_str()), ("main-window", "Main Window"));
    assert_eq!(keys.as_deref(), Some("CmdOrCtrl+0"));
    assert!(matches!(menus[0].entries[8], MenuEntry::Quit));
    assert!(matches!(menus[3].entries[5], MenuEntry::CloseWindow));
}
