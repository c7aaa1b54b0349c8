//! Windows: what they show, and who watches which folder.

use gravity_notes::assignments::{
    note_pending_key, remap_note_windows, unassign_note_windows, window_label_for_workspace,
};
use gravity_notes::fsio::{FileKind, IoFault};
use gravity_notes::path::FsPath;
use gravity_notes::string_map::StringMap;
use gravity_notes::watch::{changes_to_tell, WatchEvent};
use gravity_notes::watchers::{add_subscription, drop_subscription, WatchStep, Watchers};
use gravity_notes::windows::{cascade_offset, Found, Opening, WindowState};

fn insert(map: &mut StringMap<String>, key: &str, value: &str) {
    map.insert(key.to_string(), value.to_string());
}

#[test]
fn window_map_lookup_excludes_the_caller_and_respects_removal() {
    let mut map: StringMap<String> = StringMap::new();
    map.insert("main".to_string(), "tauri:/a".to_string());
    map.insert("ws-1".to_string(), "tauri:/b".to_string());

    assert_eq!(
        window_label_for_workspace(&map, "tauri:/b", None),
        Some("ws-1".to_string())
    );
    assert_eq!(
        window_label_for_workspace(&map, "tauri:/b", Some("ws-1")),
        None
    );
    assert_eq!(
        window_label_for_workspace(&map, "tauri:/a", Some("ws-1")),
        Some("main".to_string())
    );
    assert_eq!(window_label_for_workspace(&map, "tauri:/c", None), None);

    map.remove("ws-1");
    assert_eq!(window_label_for_workspace(&map, "tauri:/b", None), None);

    map.insert("note-1".to_string(), "tauri:/b".to_string());
    assert_eq!(window_label_for_workspace(&map, "tauri:/b", None), None);
    map.insert("ws-2".to_string(), "tauri:/b".to_string());
    assert_eq!(
        window_label_for_workspace(&map, "tauri:/b", None),
        Some("ws-2".to_string())
    );
}

#[test]
fn note_rename_remaps_matching_windows_in_the_same_workspace_only() {
    let mut labels: StringMap<String> = StringMap::new();
    labels.insert("main".to_string(), "tauri:/a".to_string());
    labels.insert("note-1".to_string(), "tauri:/a".to_string());
    labels.insert("note-2".to_string(), "tauri:/b".to_string());
    let mut notes: StringMap<String> = StringMap::new();
    notes.insert("note-1".to_string(), "Old.md".to_string());
    notes.insert("note-2".to_string(), "Old.md".to_string());

    remap_note_windows(&labels, &mut notes, "tauri:/a", "Old.md", "New.md");
    assert_eq!(notes.get("note-1").map(String::as_str), Some("New.md"));
    assert_eq!(notes.get("note-2").map(String::as_str), Some("Old.md"));

    remap_note_windows(
        &labels,
        &mut notes,
        "tauri:/a",
        "Missing.md",
        "Elsewhere.md",
    );
    assert_eq!(notes.get("note-1").map(String::as_str), Some("New.md"));
}

#[test]
fn note_delete_unassigns_matching_windows_in_the_same_workspace_only() {
    let mut labels: StringMap<String> = StringMap::new();
    labels.insert("note-1".to_string(), "tauri:/a".to_string());
    labels.insert("note-2".to_string(), "tauri:/b".to_string());
    let mut notes: StringMap<String> = StringMap::new();
    notes.insert("note-1".to_string(), "Gone.md".to_string());
    notes.insert("note-2".to_string(), "Gone.md".to_string());

    unassign_note_windows(&labels, &mut notes, "tauri:/a", "Gone.md");
    assert!(!notes.contains_key("note-1"));
    assert_eq!(notes.get("note-2").map(String::as_str), Some("Gone.md"));

    unassign_note_windows(&labels, &mut notes, "tauri:/b", "Other.md");
    assert_eq!(notes.get("note-2").map(String::as_str), Some("Gone.md"));
}

#[test]
fn watch_subscriptions_refcount_across_strictmode_interleaving() {
    let mut subs: StringMap<u32> = StringMap::new();
    add_subscription(&mut subs, "main");
    add_subscription(&mut subs, "main");
    assert!(!drop_subscription(&mut subs, "main"));
    add_subscription(&mut subs, "note-1");
    assert!(!drop_subscription(&mut subs, "main"));
    assert!(drop_subscription(&mut subs, "note-1"));
    assert!(drop_subscription(&mut subs, "ghost"));
}

#[test]
fn a_map_keeps_the_last_value_of_each_key() {
    let mut map: StringMap<String> = StringMap::new();
    assert!(map.is_empty());
    insert(&mut map, "a", "1");
    insert(&mut map, "b", "2");
    insert(&mut map, "a", "3");
    assert_eq!(map.len(), 2);
    assert_eq!(map.get("a").map(String::as_str), Some("3"));
    let mut keys = map.keys();
    keys.sort();
    assert_eq!(keys, vec!["a", "b"]);
    assert_eq!(map.remove("a"), Some("3".to_string()));
    assert_eq!(map.remove("a"), None);
    assert!(!map.contains_key("a"));
}

fn live(labels: &[&str]) -> Vec<String> {
    labels.iter().map(|l| l.to_string()).collect()
}

#[test]
fn a_workspace_is_opened_once() {
    let mut state = WindowState::new();
    state.set_window_workspace("main", "a".to_string());
    let Opening::Create(label, n) = state.open_workspace_window("b", &live(&["main"])) else {
        panic!()
    };
    assert_eq!(label, "ws-1");
    assert_eq!(n, 1);
    assert_eq!(state.window_workspace("ws-1"), Some("b".to_string()));
    // While it is being made, nobody makes another.
    assert!(matches!(state.open_workspace_window("b", &live(&["main"])), Opening::Opening));
    assert!(matches!(
        state.focus_workspace_window("main", "b", &live(&["main"])),
        Found::Opening
    ));
    assert_eq!(state.workspace_window_built("b", "ws-1", Ok(())), Ok(false));
    let Opening::Window(found) = state.open_workspace_window("b", &live(&["main", "ws-1"])) else {
        panic!()
    };
    assert_eq!(found, "ws-1");
    // The window that asks is never the answer to a switch.
    assert!(matches!(
        state.focus_workspace_window("ws-1", "b", &live(&["main", "ws-1"])),
        Found::Nowhere
    ));
}

#[test]
fn a_window_that_could_not_be_made_is_forgotten() {
    let mut state = WindowState::new();
    assert!(matches!(state.open_workspace_window("b", &live(&[])), Opening::Create(_, 1)));
    assert_eq!(
        state.workspace_window_built("b", "ws-1", Err("no screen".to_string())),
        Err("no screen".to_string())
    );
    assert_eq!(state.window_workspace("ws-1"), None);
    assert!(matches!(state.open_workspace_window("b", &live(&[])), Opening::Create(_, 2)));
}

#[test]
fn dead_windows_are_forgotten_on_the_way() {
    let mut state = WindowState::new();
    state.set_window_workspace("ws-7", "b".to_string());
    assert!(matches!(
        state.focus_workspace_window("main", "b", &live(&["main"])),
        Found::Nowhere
    ));
    assert_eq!(state.window_workspace("ws-7"), None);
}

#[test]
fn a_note_is_opened_once_and_followed() {
    let mut state = WindowState::new();
    state.set_window_workspace("main", "a".to_string());
    let Opening::Create(label, n) = state.open_note_window("a", "Old.md", &live(&["main"])) else {
        panic!()
    };
    assert_eq!(label, "note-1");
    assert_eq!(n, 1);
    assert!(matches!(
        state.open_note_window("a", "Old.md", &live(&["main"])),
        Opening::Opening
    ));
    assert_eq!(state.note_window_built("a", "Old.md", "note-1", Ok(())), Ok(false));
    assert_eq!(state.window_note("note-1"), Some("Old.md".to_string()));
    let all = live(&["main", "note-1"]);
    let Opening::Window(found) = state.open_note_window("a", "Old.md", &all) else { panic!() };
    assert_eq!(found, "note-1");

    // A note window answers no request for its workspace.
    state.set_window_workspace("main", "c".to_string());
    assert!(matches!(state.focus_workspace_window("main", "a", &all), Found::Nowhere));
    state.set_window_workspace("main", "a".to_string());

    state.window_note_renamed("main", "Old.md", "New.md");
    let Opening::Window(found) = state.open_note_window("a", "New.md", &all) else { panic!() };
    assert_eq!(found, "note-1");
    state.window_note_removed("main", "New.md");
    assert_eq!(state.window_note("note-1"), None);
    assert!(matches!(state.open_note_window("a", "New.md", &all), Opening::Create(_, 2)));
}

#[test]
fn a_note_window_that_could_not_be_made_is_forgotten() {
    let mut state = WindowState::new();
    assert!(matches!(state.open_note_window("a", "N.md", &live(&[])), Opening::Create(_, 1)));
    assert_eq!(
        state.note_window_built("a", "N.md", "note-1", Err("no screen".to_string())),
        Err("no screen".to_string())
    );
    assert_eq!(state.window_workspace("note-1"), None);
    assert_eq!(state.window_note("note-1"), None);
}

#[test]
fn a_destroyed_window_shows_nothing() {
    let mut state = WindowState::new();
    state.set_window_workspace("note-4", "a".to_string());
    state.set_window_note("note-4", Some("N.md".to_string()));
    state.window_destroyed("note-4");
    assert_eq!(state.window_workspace("note-4"), None);
    assert_eq!(state.window_note("note-4"), None);
    state.set_window_note("note-5", Some("N.md".to_string()));
    state.set_window_note("note-5", None);
    assert_eq!(state.window_note("note-5"), None);
}

#[test]
fn marks_of_note_windows_hold_the_separator() {
    assert_eq!(note_pending_key("ws", "A.md"), "ws\u{1f}A.md");
}

#[test]
fn note_windows_cascade_in_eight_steps() {
    assert_eq!(cascade_offset(1), 0);
    assert_eq!(cascade_offset(2), 28);
    assert_eq!(cascade_offset(8), 196);
    assert_eq!(cascade_offset(9), 0);
}

#[test]
fn a_folder_is_watched_until_its_last_request_is_taken_back() {
    let mut watchers = Watchers::new();
    assert_eq!(watchers.notes_watch("/a", "main") == WatchStep::Build, true);
    assert_eq!(watchers.watch_built("/a", "main", Ok(())), Ok(false));
    assert!(watchers.notes_watch("/a", "main") == WatchStep::CheckWindow);
    assert_eq!(watchers.count("/a", "main"), 2);
    // A second watcher that was started meanwhile is to be discarded.
    assert_eq!(watchers.watch_built("/a", "note-1", Ok(())), Ok(true));
    assert!(!watchers.notes_unwatch("/a", "main"));
    assert!(!watchers.notes_unwatch("/a", "main"));
    assert!(watchers.notes_unwatch("/a", "note-1"));
    assert!(!watchers.notes_unwatch("/a", "note-1"));
    assert!(watchers.notes_watch("/a", "main") == WatchStep::Build);
}

#[test]
fn a_watcher_that_could_not_be_started_is_reported() {
    let mut watchers = Watchers::new();
    let fault = IoFault { not_found: false, text: "too many".to_string() };
    assert_eq!(watchers.watch_built("/a", "main", Err(fault)), Err("too many".to_string()));
    assert_eq!(watchers.count("/a", "main"), 0);
}

#[test]
fn a_window_takes_its_requests_along() {
    let mut watchers = Watchers::new();
    assert_eq!(watchers.watch_built("/a", "main", Ok(())), Ok(false));
    assert_eq!(watchers.watch_built("/b", "main", Ok(())), Ok(false));
    assert_eq!(watchers.watch_built("/b", "ws-1", Ok(())), Ok(true));
    assert!(watchers.reap_dead_window_subscriptions("main", true).is_empty());
    assert_eq!(watchers.reap_dead_window_subscriptions("main", false), vec!["/a"]);
    assert_eq!(watchers.count("/b", "ws-1"), 1);
    assert_eq!(watchers.remove_window_subscriptions("ws-1"), vec!["/b"]);
    assert!(watchers.remove_window_subscriptions("ws-1").is_empty());
}

fn event(path: &str, on_disk: Option<FileKind>) -> WatchEvent {
    WatchEvent { path: FsPath::parse(path.as_bytes()), on_disk }
}

#[test]
fn changes_are_told_sorted_and_once() {
    let root = FsPath::parse(b"/r");
    let batch = Ok(vec![
        event("/r/b.md", Some(FileKind::File)),
        event("/r/a/c.md", None),
        event("/r/b.md", Some(FileKind::File)),
        event("/r/.DS_Store", Some(FileKind::File)),
    ]);
    assert_eq!(
        changes_to_tell(&root, &batch),
        Some(vec!["a/c.md".to_string(), "b.md".to_string()])
    );
    let noise = Ok(vec![event("/r/pic.png", Some(FileKind::File))]);
    assert_eq!(changes_to_tell(&root, &noise), None);
    // A change of the folder itself, or an error, means that changes were lost.
    let overflow = Ok(vec![event("/r/b.md", None), event("/r", Some(FileKind::Dir))]);
    assert_eq!(changes_to_tell(&root, &overflow), Some(vec![]));
    assert_eq!(changes_to_tell(&root, &Err(())), Some(vec![]));
}

#[test]
fn too_many_changes_are_told_without_their_paths() {
    let root = FsPath::parse(b"/r");
    let many = |n: usize| -> Result<Vec<WatchEvent>, ()> {
        Ok((0..n).map(|i| event(&format!("/r/{i}.md"), None)).collect())
    };
    assert_eq!(changes_to_tell(&root, &many(64)).unwrap().len(), 64);
    assert_eq!(changes_to_tell(&root, &many(65)), Some(vec![]));
}

#[test]
fn changes_are_told_to_those_who_asked() {
    let root = FsPath::parse(b"/r");
    let batch = Ok(vec![event("/r/a.md", None)]);
    let mut watchers = Watchers::new();
    assert!(watchers.handle_watch_events("/r", &root, &batch).is_none());
    assert_eq!(watchers.watch_built("/r", "main", Ok(())), Ok(false));
    assert_eq!(watchers.watch_built("/other", "ws-1", Ok(())), Ok(false));
    let notice = watchers.handle_watch_events("/r", &root, &batch).unwrap();
    assert_eq!(notice.labels, vec!["main"]);
    assert_eq!(notice.paths, vec!["a.md"]);
}

#[test]
fn no_label_is_given_twice_whatever_happens_in_between() {
    let mut state = WindowState::new();
    let mut given: Vec<String> = Vec::new();
    for round in 0..3 {
        let ws = format!("tauri:/{round}");
        let Opening::Create(label, _) = state.open_workspace_window(&ws, &live(&[])) else {
            panic!()
        };
        assert!(!given.contains(&label));
        assert!(state.workspace_window_built(&ws, &label, Ok(())).is_ok());
        given.push(label.clone());
        let Opening::Create(label, _) = state.open_note_window(&ws, "A.md", &live(&[])) else {
            panic!()
        };
        assert!(!given.contains(&label));
        let failed = Err("no window".to_string());
        assert!(state.note_window_built(&ws, "A.md", &label, failed).is_err());
        given.push(label.clone());
        state.set_window_workspace("main", ws.clone());
        state.set_window_note("main", Some("A.md".to_string()));
        state.window_note_renamed("main", "A.md", "B.md");
        state.window_note_removed("main", "B.md");
        state.window_destroyed(&label);
        assert!(matches!(
            state.focus_workspace_window("other", &ws, &live(&["main"])),
            Found::Window(label) if label == "main"
        ));
    }
    assert_eq!(given, vec!["ws-1", "note-1", "ws-2", "note-2", "ws-3", "note-3"]);
}
