use raisin::compositor::AppWindow;
use raisin::gui::{flat_row_index, header_text, on_key_pressed, on_key_released, prepare, KeyPressed, KeyReleased};
use raisin::input::matches_trigger_key;
use raisin::state::{build_groups, find_group, initial_window_idx, Groups, Picker};

fn window(id: &str, app_id: &str) -> AppWindow {
    AppWindow::new(id.to_string(), app_id.to_string(), format!("title {id}"))
}

fn names(groups: &Groups) -> Vec<String> {
    groups.entries.iter().map(|g| g.name.clone()).collect()
}

fn group_ids(groups: &Groups, name: &str) -> Vec<String> {
    let i = groups.find(name).unwrap();
    groups.entries[i].windows.iter().map(|w| w.id.clone()).collect()
}

#[test]
fn groups_by_lowercased_app_id_in_name_order() {
    let groups = build_groups(vec![
        window("1", "Zed"),
        window("2", "alacritty"),
        window("3", "zed"),
        window("4", "Alacritty"),
        window("5", "btop"),
    ]);
    assert_eq!(names(&groups), vec!["alacritty", "btop", "zed"]);
    assert_eq!(group_ids(&groups, "alacritty"), vec!["2", "4"]);
    assert_eq!(group_ids(&groups, "zed"), vec!["1", "3"]);
    assert_eq!(group_ids(&groups, "btop"), vec!["5"]);
    assert_eq!(groups.len(), 3);
    assert!(groups.find("Zed").is_none());
}

#[test]
fn group_names_order_like_strings() {
    let groups = build_groups(vec![window("1", "ab"), window("2", "a"), window("3", "b"), window("4", "aa")]);
    assert_eq!(names(&groups), vec!["a", "aa", "ab", "b"]);
}

#[test]
fn no_windows_no_groups() {
    let groups = build_groups(vec![]);
    assert_eq!(groups.len(), 0);
    assert_eq!(Groups::new().len(), 0);
}

#[test]
fn find_group_takes_first_name_containing_search() {
    let groups = build_groups(vec![window("1", "org.kde.konsole"), window("2", "konsole"), window("3", "x")]);
    assert_eq!(find_group(&groups, "KONSOLE"), Some("konsole".to_string()));
    assert_eq!(find_group(&groups, "kde"), Some("org.kde.konsole".to_string()));
    assert_eq!(find_group(&groups, "firefox"), None);
}

#[test]
fn initial_index_rules() {
    let two = vec![window("1", "a"), window("2", "a")];
    let one = vec![window("1", "a")];
    assert_eq!(initial_window_idx(&two, "A", Some("a")), 1);
    assert_eq!(initial_window_idx(&two, "a", Some("b")), 0);
    assert_eq!(initial_window_idx(&two, "a", None), 0);
    assert_eq!(initial_window_idx(&one, "a", Some("a")), 0);
}

#[test]
fn picker_cycles_through_group() {
    let groups = build_groups(vec![window("1", "a"), window("2", "a"), window("3", "a")]);
    let mut picker = Picker::new(groups, "a".to_string(), 0);
    let mut seen = vec![];
    for _ in 0..4 {
        seen.push(picker.selected_window().unwrap().id.clone());
        picker.advance_window();
    }
    assert_eq!(seen, vec!["1", "2", "3", "1"]);
}

#[test]
fn picker_single_window_stays() {
    let groups = build_groups(vec![window("1", "a"), window("2", "b")]);
    let mut picker = Picker::new(groups, "b".to_string(), 0);
    picker.advance_window();
    assert_eq!(picker.window_idx, 0);
    assert_eq!(picker.current_group_windows().len(), 1);
}

#[test]
fn picker_selection_out_of_range() {
    let groups = build_groups(vec![window("1", "a")]);
    let picker = Picker::new(groups, "a".to_string(), 3);
    assert!(picker.selected_window().is_none());
}

#[test]
fn flat_row_counts_headers_and_windows() {
    let groups = build_groups(vec![window("1", "a"), window("2", "a"), window("3", "b"), window("4", "c")]);
    // rows: [a], 1, 2, [b], 3, [c], 4
    let picker = Picker::new(groups, "b".to_string(), 0);
    assert_eq!(flat_row_index(&picker), 4);
    let groups = build_groups(vec![window("1", "a"), window("2", "a")]);
    let picker = Picker::new(groups, "a".to_string(), 1);
    assert_eq!(flat_row_index(&picker), 2);
}

#[test]
fn header_names_the_group() {
    assert_eq!(header_text("ghostty"), "Switch to ghostty");
}

#[test]
fn prepare_launches_without_match() {
    assert!(prepare(vec![window("1", "a")], "zzz").is_none());
    assert!(prepare(vec![], "a").is_none());
}

#[test]
fn prepare_selects_second_when_focused_in_group() {
    // The first window is the focused one.
    let picker = prepare(vec![window("1", "Foot"), window("2", "x"), window("3", "foot")], "FOOT").unwrap();
    assert_eq!(picker.current_group_name, "foot");
    assert_eq!(picker.window_idx, 1);
    assert_eq!(picker.selected_window().unwrap().id, "3");
}

#[test]
fn prepare_selects_first_when_focus_elsewhere() {
    let picker = prepare(vec![window("1", "x"), window("2", "foot"), window("3", "foot")], "foot").unwrap();
    assert_eq!(picker.window_idx, 0);
    assert_eq!(picker.selected_window().unwrap().id, "2");
}

#[test]
fn trigger_key_matches_either_case() {
    assert!(matches_trigger_key(Some("t"), 'T'));
    assert!(matches_trigger_key(Some("T"), 't'));
    assert!(!matches_trigger_key(Some("y"), 't'));
    assert!(!matches_trigger_key(None, 't'));
}

#[test]
fn single_window_group_keeps_any_index() {
    let groups = build_groups(vec![window("1", "a")]);
    let mut picker = Picker::new(groups, "a".to_string(), usize::MAX);
    picker.advance_window();
    assert_eq!(picker.window_idx, usize::MAX);
}

#[test]
fn flat_row_of_missing_group_follows_all_groups() {
    let groups = build_groups(vec![window("1", "a"), window("2", "b")]);
    // rows: [a], 1, [b], 2 and then the missing group's selection
    let picker = Picker::new(groups, "zz".to_string(), 2);
    assert!(raisin::gui::flat_row_fits(&picker));
    assert_eq!(flat_row_index(&picker), 7);
}

#[test]
fn flat_row_that_does_not_fit() {
    let groups = build_groups(vec![window("1", "a")]);
    let picker = Picker::new(groups, "a".to_string(), i32::MAX as usize);
    assert!(!raisin::gui::flat_row_fits(&picker));
    let groups = build_groups(vec![window("1", "a")]);
    let picker = Picker::new(groups, "a".to_string(), i32::MAX as usize - 1);
    assert!(raisin::gui::flat_row_fits(&picker));
    assert_eq!(flat_row_index(&picker), i32::MAX);
}

#[test]
fn key_presses() {
    let groups = build_groups(vec![window("1", "a"), window("2", "a")]);
    let mut picker = Picker::new(groups, "a".to_string(), 0);
    assert_eq!(on_key_pressed(&mut picker, true, true), KeyPressed::Cancel);
    assert_eq!(picker.window_idx, 0);
    assert_eq!(on_key_pressed(&mut picker, false, false), KeyPressed::Proceed);
    assert_eq!(picker.window_idx, 0);
    assert_eq!(on_key_pressed(&mut picker, false, true), KeyPressed::Reselect);
    assert_eq!(picker.window_idx, 1);
    assert_eq!(on_key_pressed(&mut picker, false, true), KeyPressed::Reselect);
    assert_eq!(picker.window_idx, 0);
}

#[test]
fn key_releases() {
    let groups = build_groups(vec![window("1", "a"), window("2", "a")]);
    let picker = Picker::new(groups, "a".to_string(), 1);
    assert!(matches!(on_key_released(&picker, false), KeyReleased::Ignored));
    match on_key_released(&picker, true) {
        KeyReleased::Picked(w) => assert_eq!(w.id, "2"),
        _ => panic!("expected a pick"),
    }
    let groups = build_groups(vec![window("1", "a")]);
    let picker = Picker::new(groups, "a".to_string(), 5);
    assert!(matches!(on_key_released(&picker, true), KeyReleased::NoWindow));
}

#[test]
fn find_group_ignores_ascii_case() {
    let groups = build_groups(vec![window("1", "Org.Gnome.Nautilus"), window("2", "foot")]);
    for s in ["gnome", "GNOME", "GnOmE"] {
        assert_eq!(find_group(&groups, s), Some("org.gnome.nautilus".to_string()));
    }
}

#[test]
fn longer_search_finds_nothing_new() {
    let groups = build_groups(vec![window("1", "foot"), window("2", "kitty")]);
    assert_eq!(find_group(&groups, "alac"), None);
    assert_eq!(find_group(&groups, "alacritty"), None);
}
