use raisin::compositor::detection::{detect, Detection};
use raisin::compositor::integrations::{hyprland, niri};
use raisin::compositor::{supported_compositors, CompositorKind, Window};
use raisin::integrations::niri::{NiriCompositor, NiriWindow};

fn hypr(address: &str, class: &str, focus: u32) -> hyprland::Window {
    hyprland::Window {
        address: address.to_string(),
        class: class.to_string(),
        focus_history_id: focus,
        title: format!("title {address}"),
    }
}

fn niri_window(id: u32, app_id: &str, secs: u64, nanos: u32) -> niri::Window {
    niri::Window {
        id,
        app_id: app_id.to_string(),
        focus_timestamp: niri::Timestamp { secs, nanos },
        title: format!("title {id}"),
    }
}

#[test]
fn compositor_names() {
    assert_eq!(CompositorKind::Hyprland.name(), "hyprland");
    assert_eq!(CompositorKind::Niri.name(), "niri");
    assert_eq!(supported_compositors(), vec![CompositorKind::Hyprland, CompositorKind::Niri]);
    assert_eq!(hyprland::Compositor::kind(), CompositorKind::Hyprland);
    assert_eq!(niri::Compositor::kind(), CompositorKind::Niri);
}

#[test]
fn detect_by_configured_name_ignores_case() {
    assert_eq!(detect(Some("NIRI"), &[]), Detection::Use(CompositorKind::Niri));
    assert_eq!(detect(Some("Hyprland"), &[]), Detection::Use(CompositorKind::Hyprland));
    assert_eq!(detect(Some("sway"), &[true]), Detection::Unsupported);
    assert_eq!(detect(Some(""), &[]), Detection::Unsupported);
}

#[test]
fn detect_probes_in_order_until_running() {
    assert_eq!(detect(None, &[]), Detection::Probe(CompositorKind::Hyprland));
    assert_eq!(detect(None, &[false]), Detection::Probe(CompositorKind::Niri));
    assert_eq!(detect(None, &[true]), Detection::Use(CompositorKind::Hyprland));
    assert_eq!(detect(None, &[false, true]), Detection::Use(CompositorKind::Niri));
    assert_eq!(detect(None, &[false, false]), Detection::NoneRunning);
}

#[test]
fn hyprland_orders_most_recent_first() {
    let clients = vec![hypr("0xc", "c", 2), hypr("0xa", "a", 0), hypr("0xb", "b", 1)];
    let windows = hyprland::Compositor::windows(clients);
    let ids: Vec<&str> = windows.iter().map(|w| w.id.as_str()).collect();
    assert_eq!(ids, vec!["0xa", "0xb", "0xc"]);
    assert_eq!(windows[0].app_id, "a");
    assert_eq!(windows[0].title, "title 0xa");
}

#[test]
fn hyprland_sort_is_stable() {
    let clients = vec![hypr("0x1", "a", 3), hypr("0x2", "b", 1), hypr("0x3", "c", 3), hypr("0x4", "d", 1)];
    let sorted = hyprland::Compositor::by_recency(clients);
    let ids: Vec<&str> = sorted.iter().map(|w| w.address.as_str()).collect();
    assert_eq!(ids, vec!["0x2", "0x4", "0x1", "0x3"]);
}

#[test]
fn hyprland_focus_command() {
    let args = hyprland::Compositor::focus_args("0x55d1");
    assert_eq!(args, vec!["dispatch".to_string(), "hl.dsp.focus({ window = 'address:0x55d1' })".to_string()]);
}

#[test]
fn hyprland_warning_detection() {
    assert!(hyprland::Compositor::is_warning("warning: no such window"));
    assert!(!hyprland::Compositor::is_warning("ok"));
    assert!(!hyprland::Compositor::is_warning("warn"));
    assert!(!hyprland::Compositor::is_warning(" warning:"));
}

#[test]
fn niri_orders_most_recent_first() {
    let list = vec![
        niri_window(1, "a", 10, 5),
        niri_window(2, "b", 12, 0),
        niri_window(3, "c", 10, 9),
        niri_window(4, "d", 10, 5),
    ];
    let windows = niri::Compositor::windows(list);
    let ids: Vec<&str> = windows.iter().map(|w| w.id.as_str()).collect();
    assert_eq!(ids, vec!["2", "3", "1", "4"]);
}

#[test]
fn niri_ids_are_decimal() {
    let w = niri_window(4294967295, "app", 0, 0).into_app_window();
    assert_eq!(w.id, "4294967295");
    let w = niri_window(0, "app", 0, 0).into_app_window();
    assert_eq!(w.id, "0");
    let w = niri_window(120, "app", 0, 0).into_app_window();
    assert_eq!(w.id, "120");
    assert_eq!(w.app_id, "app");
}

#[test]
fn niri_focused_window() {
    assert!(niri::Compositor::focused_window(None).is_none());
    let w = niri::Compositor::focused_window(Some(niri_window(42, "foot", 1, 1))).unwrap();
    assert_eq!(w.id, "42");
    assert_eq!(w.app_id, "foot");
}

#[test]
fn niri_focus_command() {
    let args = niri::Compositor::focus_args("17");
    assert_eq!(args, vec!["msg", "action", "focus-window", "--id", "17"]);
    let args = NiriCompositor::focus_args(17);
    assert_eq!(args, vec!["msg", "action", "focus-window", "--id", "17"]);
}

#[test]
fn niri_window_interface() {
    let w: NiriWindow = niri_window(9, "foot", 3, 4);
    assert_eq!(*Window::id(&w), 9);
    assert_eq!(Window::app_id(&w), "foot");
    assert_eq!(Window::title(&w), "title 9");
    assert_eq!(*Window::last_focused(&w), niri::Timestamp { secs: 3, nanos: 4 });
}

#[test]
fn timestamps_order_by_secs_then_nanos() {
    let a = niri::Timestamp { secs: 1, nanos: 900 };
    let b = niri::Timestamp { secs: 2, nanos: 0 };
    let c = niri::Timestamp { secs: 2, nanos: 1 };
    assert!(a < b && b < c);
}
