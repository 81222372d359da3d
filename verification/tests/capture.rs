use crop_hypr::capture::{
    active_workspace_ids, check_command_status, check_config_target, check_monitor_size,
    clamp_window_crop, crop_frozen_image, focused_index, focused_monitor_name, freeze_crop_rect,
    plan_region_crop, plan_window_capture, slurp_region_from,
};
use crop_hypr::error::AppError;
use crop_hypr::geometry::ScreenRect;
use crop_hypr::hyprland::{HyprMonitor, HyprWorkspace, MonitorInfo};
use crop_hypr::pixels::RgbaImage;

fn monitor(name: &str, x: i32, y: i32, w: i32, h: i32, focused: bool, ws: i64) -> MonitorInfo {
    MonitorInfo {
        rect: ScreenRect { x, y, w, h },
        name: name.to_string(),
        focused,
        active_workspace_id: ws,
    }
}

fn hypr_monitor(name: &str, focused: bool) -> HyprMonitor {
    HyprMonitor {
        x: 0,
        y: 0,
        width: 100,
        height: 100,
        name: name.to_string(),
        focused,
        active_workspace: HyprWorkspace { id: 1 },
    }
}

#[test]
fn slurp_output_is_trimmed() {
    let r = slurp_region_from(true, Some(0), "exit status: 0", b"  10,20 30x40\n".to_vec());
    assert_eq!(r.unwrap(), "10,20 30x40");
}

#[test]
fn slurp_exit_code_one_is_cancel() {
    let r = slurp_region_from(false, Some(1), "exit status: 1", Vec::new());
    assert!(matches!(r, Err(AppError::UserCancelled)));
}

#[test]
fn slurp_other_failure_is_reported() {
    let r = slurp_region_from(false, Some(2), "exit status: 2", Vec::new());
    match r {
        Err(AppError::CommandFailed(c, s)) => {
            assert_eq!(c, "slurp");
            assert_eq!(s, "exit status: 2");
        }
        other => panic!("unexpected: {:?}", other),
    }
    let r = slurp_region_from(false, None, "signal: 9", Vec::new());
    assert!(matches!(r, Err(AppError::CommandFailed(_, _))));
}

#[test]
fn slurp_empty_output_is_empty_geometry() {
    let r = slurp_region_from(true, Some(0), "", b" \n\t".to_vec());
    assert!(matches!(r, Err(AppError::EmptyGeometry)));
}

#[test]
fn slurp_invalid_utf8_is_an_error() {
    let r = slurp_region_from(true, Some(0), "", vec![0xff, 0xfe]);
    match r {
        Err(AppError::Other(m)) => assert_eq!(m, "slurp output is not valid UTF-8"),
        other => panic!("unexpected: {:?}", other),
    }
}

#[test]
fn region_crop_inside_the_image() {
    let p = plan_region_crop((0, 0), (100, 50, 200, 100), 1920, 1080).unwrap();
    assert_eq!((p.x, p.y, p.w, p.h, p.was_clamped), (100, 50, 200, 100, false));
}

#[test]
fn region_crop_relative_to_the_origin() {
    // Monitors start at x = -1280: the region at x = -1000 is 280 pixels in.
    let p = plan_region_crop((-1280, 0), (-1000, 10, 50, 50), 3200, 1080).unwrap();
    assert_eq!((p.x, p.y, p.w, p.h), (280, 10, 50, 50));
}

#[test]
fn region_crop_is_clamped() {
    let p = plan_region_crop((0, 0), (1900, 1000, 100, 100), 1920, 1080).unwrap();
    assert_eq!((p.x, p.y, p.w, p.h, p.was_clamped), (1900, 1000, 20, 80, true));
}

#[test]
fn region_crop_outside_is_an_error() {
    match plan_region_crop((0, 0), (2000, 10, 5, 6), 1920, 1080) {
        Err(AppError::Other(m)) => assert_eq!(
            m,
            "Crop region (2000,10 5x6) is entirely outside the image bounds (1920x1080)"
        ),
        other => panic!("unexpected: {:?}", other),
    }
}

#[test]
fn window_on_second_monitor() {
    let ms = vec![
        monitor("A", 0, 0, 1920, 1080, true, 1),
        monitor("B", 1920, 0, 2560, 1440, false, 2),
    ];
    let t = plan_window_capture([2000, 100], [800, 600], 0, &ms).unwrap();
    assert_eq!((t.monitor, t.rel_x, t.rel_y, t.width, t.height), (1, 80, 100, 800, 600));
}

#[test]
fn window_with_border_grows() {
    let ms = vec![monitor("A", 0, 0, 1920, 1080, true, 1)];
    let t = plan_window_capture([100, 100], [800, 600], 2, &ms).unwrap();
    assert_eq!((t.monitor, t.rel_x, t.rel_y, t.width, t.height), (0, 98, 98, 804, 604));
}

#[test]
fn window_off_every_monitor_is_an_error() {
    let ms = vec![monitor("A", 0, 0, 1920, 1080, true, 1)];
    match plan_window_capture([5000, 100], [800, 600], 0, &ms) {
        Err(AppError::Other(m)) => assert_eq!(m, "Could not find monitor for active window"),
        other => panic!("unexpected: {:?}", other),
    }
}

#[test]
fn monitor_size_must_be_positive() {
    assert!(check_monitor_size(&monitor("A", 0, 0, 10, 10, true, 1)).is_ok());
    match check_monitor_size(&monitor("DP-2", 0, 0, 0, -5, true, 1)) {
        Err(AppError::Other(m)) => {
            assert_eq!(m, "Monitor 'DP-2' has invalid dimensions (0x-5) in Hyprland IPC data")
        }
        other => panic!("unexpected: {:?}", other),
    }
}

#[test]
fn window_crop_is_clamped_to_the_monitor_image() {
    assert_eq!(clamp_window_crop(10, 10, 100, 50, 3840, 2160).unwrap(), (100, 50));
    assert_eq!(clamp_window_crop(3800, 2150, 100, 50, 3840, 2160).unwrap(), (40, 10));
    match clamp_window_crop(4000, 0, 100, 50, 3840, 2160) {
        Err(AppError::Other(m)) => {
            assert_eq!(m, "Window crop region is entirely outside the monitor image bounds")
        }
        other => panic!("unexpected: {:?}", other),
    }
}

#[test]
fn focused_monitor_is_found() {
    let ms = vec![hypr_monitor("A", false), hypr_monitor("B", true), hypr_monitor("C", true)];
    assert_eq!(focused_monitor_name(&ms).unwrap(), "B");
    let none = vec![hypr_monitor("A", false)];
    assert!(matches!(focused_monitor_name(&none), Err(AppError::NoFocusedMonitor)));
}

#[test]
fn freeze_start_values() {
    let ms = vec![
        monitor("A", 0, 0, 10, 10, false, 3),
        monitor("B", 10, 0, 10, 10, true, 7),
    ];
    assert_eq!(active_workspace_ids(&ms), vec![3, 7]);
    assert_eq!(focused_index(&ms), 1);
    let unfocused = vec![monitor("A", 0, 0, 10, 10, false, 3)];
    assert_eq!(focused_index(&unfocused), 0);
}

#[test]
fn freeze_crop_rect_clamps() {
    let r = ScreenRect { x: -5, y: 2, w: 10, h: 100 };
    assert_eq!(freeze_crop_rect(r, 8, 6), (0, 2, 8, 4));
    let r = ScreenRect { x: 1, y: 1, w: 2, h: 3 };
    assert_eq!(freeze_crop_rect(r, 8, 6), (1, 1, 2, 3));
}

#[test]
fn frozen_image_is_cropped_to_the_region() {
    let img = RgbaImage::from_parts(3, 2, (0u8..24).collect()).unwrap();
    let whole = crop_frozen_image(img, None);
    assert_eq!((whole.width(), whole.height()), (3, 2));
    let part = crop_frozen_image(whole, Some(ScreenRect { x: 1, y: 0, w: 1, h: 2 }));
    let (w, h, bytes) = part.into_parts();
    assert_eq!((w, h), (1, 2));
    assert_eq!(bytes, vec![4, 5, 6, 7, 16, 17, 18, 19]);
}

#[test]
fn command_status() {
    assert!(check_command_status("wl-copy", true, "exit status: 0").is_ok());
    match check_command_status("wl-copy", false, "exit status: 1") {
        Err(AppError::CommandFailed(c, s)) => {
            assert_eq!(c, "wl-copy");
            assert_eq!(s, "exit status: 1");
        }
        other => panic!("unexpected: {:?}", other),
    }
}

#[test]
fn config_target_needs_force_to_overwrite() {
    assert!(check_config_target("/c.toml", false, false).is_ok());
    assert!(check_config_target("/c.toml", true, true).is_ok());
    match check_config_target("/c.toml", true, false) {
        Err(AppError::Config(m)) => {
            assert_eq!(m, "config file already exists: /c.toml\nUse --force to overwrite")
        }
        other => panic!("unexpected: {:?}", other),
    }
}

#[test]
fn window_search_stops_at_the_first_monitor_found() {
    // A later monitor whose right edge would not fit in an i32 is never looked at.
    let ms = vec![
        monitor("A", 0, 0, 1920, 1080, true, 1),
        monitor("B", i32::MAX - 5, 0, 100, 100, false, 2),
    ];
    let t = plan_window_capture([10, 10], [100, 100], 0, &ms).unwrap();
    assert_eq!((t.monitor, t.rel_x, t.rel_y), (0, 10, 10));
}
