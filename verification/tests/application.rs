use raisin::application::{Application, RunAction, RunStage};
use raisin::compositor::AppWindow;

fn window(id: &str, app_id: &str, title: &str) -> AppWindow {
    AppWindow::new(id.to_string(), app_id.to_string(), title.to_string())
}

fn ids(windows: &[AppWindow]) -> Vec<String> {
    windows.iter().map(|w| w.id.clone()).collect()
}

#[test]
fn start_lists_windows() {
    let app = Application::new("ghostty".to_string(), None);
    assert!(matches!(app.run(RunStage::Start), RunAction::ListWindows));
}

#[test]
fn launches_when_no_window_matches() {
    let app = Application::new("ghostty".to_string(), None);
    let windows = vec![window("1", "firefox", "Mozilla Firefox")];
    match app.run(RunStage::WindowsListed(windows)) {
        RunAction::Launch(cmd) => assert_eq!(cmd, "ghostty"),
        _ => panic!("expected a launch"),
    }
}

#[test]
fn launches_when_there_are_no_windows() {
    let app = Application::new("kitty".to_string(), Some("org.kitty".to_string()));
    match app.run(RunStage::WindowsListed(vec![])) {
        RunAction::Launch(cmd) => assert_eq!(cmd, "kitty"),
        _ => panic!("expected a launch"),
    }
}

#[test]
fn asks_for_focus_with_the_group() {
    let app = Application::new("ghostty".to_string(), Some("com.mitchellh.ghostty".to_string()));
    let windows = vec![
        window("1", "firefox", "a"),
        window("2", "com.mitchellh.ghostty", "b"),
        window("3", "slack", "c"),
        window("4", "com.mitchellh.ghostty", "d"),
    ];
    match app.run(RunStage::WindowsListed(windows)) {
        RunAction::FindFocus(group) => assert_eq!(ids(&group), vec!["2", "4"]),
        _ => panic!("expected a focus query"),
    }
}

#[test]
fn search_is_case_insensitive() {
    // The application id is matched after lowercasing both sides.
    let app = Application::new("Firefox".to_string(), None);
    let windows = vec![window("7", "org.mozilla.FIREFOX", "x"), window("8", "Org.Mozilla.Firefox", "y")];
    match app.run(RunStage::WindowsListed(windows)) {
        RunAction::FindFocus(group) => assert_eq!(ids(&group), vec!["7", "8"]),
        _ => panic!("expected a focus query"),
    }
}

#[test]
fn focuses_next_window_in_group() {
    let app = Application::new("ghostty".to_string(), None);
    let siblings = vec![window("a", "ghostty", ""), window("b", "ghostty", ""), window("c", "ghostty", "")];
    let focused = Some(window("b", "ghostty", ""));
    match app.run(RunStage::FocusFound { siblings, focused }) {
        RunAction::Focus(w) => assert_eq!(w.id, "c"),
        _ => panic!("expected a focus"),
    }
}

#[test]
fn focus_wraps_around() {
    let app = Application::new("ghostty".to_string(), None);
    let siblings = vec![window("a", "ghostty", ""), window("b", "ghostty", "")];
    let focused = Some(window("b", "ghostty", ""));
    match app.run(RunStage::FocusFound { siblings, focused }) {
        RunAction::Focus(w) => assert_eq!(w.id, "a"),
        _ => panic!("expected a focus"),
    }
}

#[test]
fn focuses_first_when_focus_is_elsewhere() {
    let app = Application::new("ghostty".to_string(), None);
    let siblings = vec![window("a", "ghostty", ""), window("b", "ghostty", "")];
    let focused = Some(window("z", "firefox", ""));
    match app.run(RunStage::FocusFound { siblings, focused }) {
        RunAction::Focus(w) => assert_eq!(w.id, "a"),
        _ => panic!("expected a focus"),
    }
}

#[test]
fn focuses_first_when_nothing_is_focused() {
    let app = Application::new("ghostty".to_string(), None);
    let siblings = vec![window("a", "ghostty", ""), window("b", "ghostty", "")];
    match app.run(RunStage::FocusFound { siblings, focused: None }) {
        RunAction::Focus(w) => assert_eq!(w.id, "a"),
        _ => panic!("expected a focus"),
    }
}

#[test]
fn cycle_index_of_single_window() {
    let siblings = vec![window("a", "x", "")];
    let focused = window("a", "x", "");
    assert_eq!(Application::get_cycle_window_target_index(Some(&focused), &siblings), 0);
}

#[test]
fn cycle_index_with_empty_group_is_zero() {
    let focused = window("a", "x", "");
    assert_eq!(Application::get_cycle_window_target_index(Some(&focused), &[]), 0);
    assert_eq!(Application::get_cycle_window_target_index(None, &[]), 0);
}

#[test]
fn cycle_matches_first_window_with_the_id() {
    // Windows are the same window when their ids agree.
    let siblings = vec![window("a", "x", "one"), window("b", "x", ""), window("a", "x", "two")];
    let focused = window("a", "y", "other title");
    assert_eq!(Application::get_cycle_window_target_index(Some(&focused), &siblings), 1);
}

#[test]
fn cycling_visits_every_window() {
    let siblings = vec![window("a", "x", ""), window("b", "x", ""), window("c", "x", "")];
    let mut current = 1usize;
    let mut seen = vec![current];
    for _ in 0..3 {
        let target = Application::get_cycle_window_target(Some(&siblings[current]), &siblings);
        current = siblings.iter().position(|w| w.id == target.id).unwrap();
        seen.push(current);
    }
    assert_eq!(seen, vec![1, 2, 0, 1]);
}

#[test]
fn cycle_target_returns_the_window() {
    let siblings = vec![window("a", "x", "first"), window("b", "x", "second")];
    let t = Application::get_cycle_window_target(None, &siblings);
    assert_eq!(t.title, "first");
}

#[test]
fn group_is_picked_by_first_match() {
    // The first window whose lowercased app id contains the search decides the group.
    let windows = vec![
        window("1", "org.gnome.Nautilus", ""),
        window("2", "term-b", ""),
        window("3", "term-a", ""),
        window("4", "TERM-B", ""),
    ];
    let group = Application::get_window_group(windows, "term");
    assert_eq!(ids(&group), vec!["2", "4"]);
}

#[test]
fn empty_search_matches_first_window() {
    let windows = vec![window("1", "a", ""), window("2", "b", ""), window("3", "A", "")];
    let group = Application::get_window_group(windows, "");
    assert_eq!(ids(&group), vec!["1", "3"]);
}

#[test]
fn group_is_empty_without_match() {
    let windows = vec![window("1", "a", ""), window("2", "b", "")];
    assert!(Application::get_window_group(windows, "zzz").is_empty());
}

#[test]
fn windows_equal_by_id() {
    assert!(window("1", "a", "x") == window("1", "b", "y"));
    assert!(window("1", "a", "x") != window("2", "a", "x"));
}

#[test]
fn new_keeps_arguments() {
    let app = Application::new("foot".to_string(), Some("foot".to_string()));
    assert_eq!(app.app, "foot");
    assert_eq!(app.app_id.as_deref(), Some("foot"));
}
