use crop_hypr::hyprland::{
    border_style_from, ipc_request, parse_monitors, parse_windows, HyprClient, HyprMonitor,
    HyprOption, HyprWorkspace,
};
use crop_hypr::overlay::{monitors_from_entries, windows_from_entries, ClientFields, MonitorFields};

#[test]
fn test_monitor_parsing() {
    let monitors = vec![HyprMonitor {
        x: 0,
        y: 0,
        width: 1920,
        height: 1080,
        name: "DP-1".to_string(),
        focused: true,
        active_workspace: HyprWorkspace { id: 1 },
    }];

    let parsed = parse_monitors(monitors);
    assert_eq!(parsed.len(), 1);
    assert_eq!(parsed[0].name, "DP-1");
    assert_eq!(parsed[0].rect.w, 1920);
    assert!(parsed[0].focused);
    assert_eq!(parsed[0].active_workspace_id, 1);
}

#[test]
fn test_window_parsing() {
    let clients = vec![
        HyprClient {
            hidden: false,
            workspace: HyprWorkspace { id: 1 },
            at: [100, 100],
            size: [800, 600],
            title: "Visible Window".to_string(),
            floating: false,
            focus_history_id: 1,
        },
        HyprClient {
            hidden: true,
            workspace: HyprWorkspace { id: 1 },
            at: [200, 200],
            size: [800, 600],
            title: "Hidden Window".to_string(),
            floating: false,
            focus_history_id: 2,
        },
        HyprClient {
            hidden: false,
            workspace: HyprWorkspace { id: 2 },
            at: [300, 300],
            size: [800, 600],
            title: "Other Workspace Window".to_string(),
            floating: false,
            focus_history_id: 3,
        },
    ];

    let active_workspaces = vec![1];
    let parsed = parse_windows(clients, &active_workspaces);

    assert_eq!(parsed.len(), 1);
    assert_eq!(parsed[0].title, "Visible Window");
    assert_eq!(parsed[0].rect.x, 100);
    assert_eq!(parsed[0].rect.w, 800);
}

fn client(id: i64, size: [i32; 2], title: &str) -> HyprClient {
    HyprClient {
        hidden: false,
        workspace: HyprWorkspace { id },
        at: [1, 2],
        size,
        title: title.to_string(),
        floating: true,
        focus_history_id: 7,
    }
}

#[test]
fn windows_without_size_are_skipped_and_order_kept() {
    let clients = vec![
        client(3, [0, 10], "zero width"),
        client(3, [10, -1], "negative height"),
        client(3, [5, 6], "b"),
        client(4, [5, 6], "c"),
        client(9, [5, 6], "inactive"),
    ];
    let parsed = parse_windows(clients, &[4, 3]);
    let titles: Vec<&str> = parsed.iter().map(|w| w.title.as_str()).collect();
    assert_eq!(titles, vec!["b", "c"]);
    assert!(parsed[0].floating);
    assert_eq!(parsed[0].focus_history_id, 7);
    assert_eq!((parsed[1].rect.x, parsed[1].rect.y, parsed[1].rect.h), (1, 2, 6));
    assert!(parse_windows(vec![client(1, [1, 1], "x")], &[]).is_empty());
}

#[test]
fn border_style_reads_options() {
    let s = border_style_from(Some(HyprOption { int: 2 }), Some(HyprOption { int: 10 }));
    assert_eq!((s.border_size, s.rounding), (2, 10));
    let s = border_style_from(Some(HyprOption { int: -4 }), None);
    assert_eq!((s.border_size, s.rounding), (0, 0));
    let s = border_style_from(Some(HyprOption { int: 0x1_0000_0005 }), Some(HyprOption { int: 0 }));
    assert_eq!((s.border_size, s.rounding), (5, 0));
}

#[test]
fn border_style_falls_back_to_the_default_style() {
    // A failed border query with a readable rounding still gives the whole default.
    let s = border_style_from(None, Some(HyprOption { int: 8 }));
    assert_eq!((s.border_size, s.rounding), (0, 0));
    let s = border_style_from(None, None);
    assert_eq!((s.border_size, s.rounding), (0, 0));
}

#[test]
fn ipc_request_asks_for_json() {
    assert_eq!(ipc_request("monitors"), "j/monitors");
    assert_eq!(ipc_request("getoption general:border_size"), "j/getoption general:border_size");
}

#[test]
fn overlay_entries_become_windows_and_monitors() {
    let clients = vec![
        ClientFields { at_x: Some(10), at_y: Some(20), width: Some(300), height: Some(200), title: Some("term".into()) },
        ClientFields { at_x: Some(10), at_y: None, width: Some(300), height: Some(200), title: None },
        ClientFields { at_x: Some(0), at_y: Some(0), width: Some(0), height: Some(200), title: None },
        ClientFields { at_x: Some(-5), at_y: Some(7), width: Some(4), height: Some(0x1_0000_0003), title: None },
    ];
    let wins = windows_from_entries(&clients);
    assert_eq!(wins.len(), 2);
    assert_eq!(wins[0].title, "term");
    assert_eq!((wins[0].rect.x, wins[0].rect.y, wins[0].rect.w, wins[0].rect.h), (10, 20, 300, 200));
    assert_eq!(wins[1].title, "");
    assert_eq!((wins[1].rect.x, wins[1].rect.h), (-5, 3));

    let monitors = vec![
        MonitorFields { x: Some(0), y: Some(0), width: Some(1920), height: Some(1080), name: Some("DP-1".into()), focused: Some(true) },
        MonitorFields { x: Some(1920), y: Some(0), width: Some(1280), height: Some(1024), name: None, focused: None },
        MonitorFields { x: Some(-1280), y: Some(0), width: Some(1280), height: Some(1024), name: Some("HDMI-A-1".into()), focused: None },
    ];
    let mons = monitors_from_entries(&monitors);
    assert_eq!(mons.len(), 2);
    assert_eq!(mons[0].name, "DP-1");
    assert!(mons[0].focused);
    assert_eq!(mons[1].rect.x, -1280);
    assert!(!mons[1].focused);
}
