use raisin::compositor::integrations::hyprland;
use raisin::text::{
    char_to_lowercase, char_to_uppercase, decimal_string, str_contains, str_eq, str_less,
    str_starts_with, to_lowercase,
};

#[test]
fn substring_search() {
    assert!(str_contains("com.mitchellh.ghostty", "ghostty"));
    assert!(str_contains("abc", ""));
    assert!(str_contains("", ""));
    assert!(!str_contains("", "a"));
    assert!(!str_contains("gho", "ghostty"));
    assert!(str_contains("aaab", "aab"));
    assert!(str_contains("héllo wörld", "ö"));
}

#[test]
fn prefix_test() {
    assert!(str_starts_with("warning: x", "warning:"));
    assert!(str_starts_with("abc", ""));
    assert!(!str_starts_with("ab", "abc"));
}

#[test]
fn string_order_is_lexicographic() {
    assert!(str_less("a", "b"));
    assert!(str_less("a", "aa"));
    assert!(str_less("", "a"));
    assert!(!str_less("a", "a"));
    assert!(!str_less("b", "ab"));
    assert!(str_less("Z", "a"));
    assert_eq!(str_less("zed", "älpha"), "zed" < "älpha");
}

#[test]
fn equality_of_strings() {
    assert!(str_eq("niri", "niri"));
    assert!(!str_eq("niri", "Niri"));
}

#[test]
fn decimal_notation() {
    assert_eq!(decimal_string(0), "0");
    assert_eq!(decimal_string(7), "7");
    assert_eq!(decimal_string(10), "10");
    assert_eq!(decimal_string(1234567), "1234567");
    assert_eq!(decimal_string(u32::MAX), u32::MAX.to_string());
}

#[test]
fn case_mapping() {
    assert_eq!(to_lowercase("Org.Mozilla.FIREFOX"), "org.mozilla.firefox");
    assert_eq!(char_to_lowercase('Q'), "q");
    assert_eq!(char_to_uppercase('q'), "Q");
    assert_eq!(char_to_uppercase('ß'), "SS");
}

#[test]
fn hyprland_focused_window_has_history_zero() {
    let client = |address: &str, focus: u32| hyprland::Window {
        address: address.to_string(),
        class: "c".to_string(),
        focus_history_id: focus,
        title: String::new(),
    };
    let focused = hyprland::Compositor::focused_window(vec![client("0x1", 2), client("0x2", 0), client("0x3", 1)]);
    assert_eq!(focused.unwrap().id, "0x2");
    assert!(hyprland::Compositor::focused_window(vec![client("0x1", 3)]).is_none());
    assert!(hyprland::Compositor::focused_window(vec![]).is_none());
}
