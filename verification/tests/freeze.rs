use crop_hypr::config::FreezeButtons;
use crop_hypr::error::AppError;
use crop_hypr::freeze::{
    canvas_update, cursor_style, freeze_outcome, mode_from_saved, mode_to_save, mode_to_str,
    resolve_initial_mode, str_to_mode, toolbar_buttons, CanvasAction, CanvasEvent, CanvasState, CaptureMode,
    CursorStyle, Message, SelectionState,
};
use crop_hypr::geometry::ScreenRect;

/// Save `mode` into `file` as the persisted text, the way the state file is written.
fn save(file: &mut Option<String>, mode: CaptureMode) {
    if let Some(word) = mode_to_save(mode) {
        *file = Some(word.to_string());
    }
}

fn load(file: &Option<String>) -> CaptureMode {
    mode_from_saved(file.as_deref())
}

#[test]
fn freeze_state_test_round_trip_crop() {
    let mut file = None;
    save(&mut file, CaptureMode::Crop);
    assert_eq!(load(&file), CaptureMode::Crop);
}

#[test]
fn freeze_state_test_round_trip_window() {
    let mut file = None;
    save(&mut file, CaptureMode::Window);
    assert_eq!(load(&file), CaptureMode::Window);
}

#[test]
fn freeze_state_test_round_trip_monitor() {
    let mut file = None;
    save(&mut file, CaptureMode::Monitor);
    assert_eq!(load(&file), CaptureMode::Monitor);
}

#[test]
fn freeze_state_test_all_is_not_saved() {
    let mut file = None;
    // First save something meaningful
    save(&mut file, CaptureMode::Window);
    // Then "save" All — should be a no-op
    save(&mut file, CaptureMode::All);
    assert_eq!(load(&file), CaptureMode::Window);
}

#[test]
fn freeze_state_test_missing_file_returns_crop() {
    assert_eq!(load(&None), CaptureMode::Crop);
}

#[test]
fn freeze_state_test_unknown_content_returns_crop() {
    assert_eq!(load(&Some("bogus".to_string())), CaptureMode::Crop);
}

#[test]
fn saved_words() {
    assert_eq!(mode_to_str(CaptureMode::Crop), "crop");
    assert_eq!(mode_to_str(CaptureMode::Window), "window");
    assert_eq!(mode_to_str(CaptureMode::Monitor), "monitor");
    assert_eq!(mode_to_str(CaptureMode::All), "all");
    assert_eq!(str_to_mode(" window\n"), Some(CaptureMode::Window));
    assert_eq!(str_to_mode("all"), None);
    assert_eq!(str_to_mode("Crop"), None);
}

fn buttons(crop: bool, window: bool, monitor: bool, all: bool) -> FreezeButtons {
    FreezeButtons { crop, window, monitor, all, cancel: true }
}

#[test]
fn initial_mode_falls_back_to_an_enabled_button() {
    assert_eq!(resolve_initial_mode(&buttons(true, true, true, true), CaptureMode::Monitor), CaptureMode::Monitor);
    assert_eq!(resolve_initial_mode(&buttons(true, true, false, true), CaptureMode::Monitor), CaptureMode::Crop);
    assert_eq!(resolve_initial_mode(&buttons(false, false, true, true), CaptureMode::Window), CaptureMode::Monitor);
    assert_eq!(resolve_initial_mode(&buttons(false, false, false, true), CaptureMode::Crop), CaptureMode::All);
    assert_eq!(resolve_initial_mode(&buttons(false, false, false, false), CaptureMode::Window), CaptureMode::Crop);
}

#[test]
fn selection_messages() {
    let r = ScreenRect { x: 1, y: 2, w: 3, h: 4 };
    let mut s = SelectionState::new(CaptureMode::Crop);
    assert!(!s.update(Message::ModeSelected(CaptureMode::Window)));
    assert_eq!(s.mode, CaptureMode::Window);
    assert!(s.result.is_none());
    assert!(s.update(Message::SelectionConfirmed(r)));
    assert_eq!(s.result, Some(Some(r)));

    let mut s = SelectionState::new(CaptureMode::Crop);
    assert!(s.update(Message::ModeSelected(CaptureMode::All)));
    assert_eq!(s.result, Some(None));
    assert_eq!(s.mode, CaptureMode::Crop);

    let mut s = SelectionState::new(CaptureMode::Monitor);
    assert!(s.update(Message::Cancel));
    assert!(s.result.is_none());
}

#[test]
fn outcome_of_a_session() {
    assert!(matches!(freeze_outcome(None, 0, 0), Err(AppError::UserCancelled)));
    assert_eq!(freeze_outcome(Some(None), -1920, 0).unwrap(), None);
    let r = ScreenRect { x: -1900, y: 10, w: 50, h: 60 };
    assert_eq!(
        freeze_outcome(Some(Some(r)), -1920, 5).unwrap(),
        Some(ScreenRect { x: 20, y: 5, w: 50, h: 60 })
    );
}

#[test]
fn cursor_styles() {
    assert_eq!(cursor_style(false, CaptureMode::Crop, false), CursorStyle::Crosshair);
    assert_eq!(cursor_style(true, CaptureMode::Window, true), CursorStyle::Crosshair);
    assert_eq!(cursor_style(false, CaptureMode::Window, true), CursorStyle::Pointer);
    assert_eq!(cursor_style(false, CaptureMode::Monitor, false), CursorStyle::Default);
    assert_eq!(cursor_style(false, CaptureMode::All, true), CursorStyle::Default);
}

fn confirmed(a: Option<CanvasAction>) -> Option<ScreenRect> {
    match a {
        Some(CanvasAction::Publish(Message::SelectionConfirmed(r))) => Some(r),
        _ => None,
    }
}

#[test]
fn canvas_drag_and_click() {
    let wins = [ScreenRect { x: 0, y: 0, w: 10, h: 10 }, ScreenRect { x: 5, y: 5, w: 10, h: 10 }];
    let mons = [ScreenRect { x: 0, y: 0, w: 1920, h: 1080 }];

    // Crop: press, release a 100x50 rectangle → confirmed in global coordinates.
    let mut st = CanvasState::new();
    let a = canvas_update(&mut st, CaptureMode::Crop, CanvasEvent::LeftPressed { inside: true }, &wins, &mons, (1920, 0));
    assert!(matches!(a, Some(CanvasAction::RedrawAndCapture)));
    assert!(st.cropping);
    let a = canvas_update(&mut st, CaptureMode::Crop, CanvasEvent::CursorMoved { window_hit: None, monitor_hit: None }, &wins, &mons, (1920, 0));
    assert!(matches!(a, Some(CanvasAction::Redraw)));
    let a = canvas_update(&mut st, CaptureMode::Crop, CanvasEvent::LeftReleased { rect: ScreenRect { x: 10, y: 20, w: 100, h: 50 } }, &wins, &mons, (1920, 0));
    assert_eq!(confirmed(a), Some(ScreenRect { x: 1930, y: 20, w: 100, h: 50 }));
    assert!(!st.cropping);

    // A drag smaller than 5x5 is dropped.
    let _ = canvas_update(&mut st, CaptureMode::Crop, CanvasEvent::LeftPressed { inside: true }, &wins, &mons, (0, 0));
    let a = canvas_update(&mut st, CaptureMode::Crop, CanvasEvent::LeftReleased { rect: ScreenRect { x: 0, y: 0, w: 4, h: 40 } }, &wins, &mons, (0, 0));
    assert!(matches!(a, Some(CanvasAction::Redraw)));
    assert!(!st.cropping);

    // Window: hover the second window, then click it.
    let mut st = CanvasState::new();
    let a = canvas_update(&mut st, CaptureMode::Window, CanvasEvent::CursorMoved { window_hit: Some(1), monitor_hit: Some(0) }, &wins, &mons, (0, 0));
    assert!(matches!(a, Some(CanvasAction::Redraw)));
    assert_eq!(st.hovered, Some(1));
    let a = canvas_update(&mut st, CaptureMode::Window, CanvasEvent::CursorMoved { window_hit: Some(1), monitor_hit: None }, &wins, &mons, (0, 0));
    assert!(a.is_none());
    let a = canvas_update(&mut st, CaptureMode::Window, CanvasEvent::LeftPressed { inside: true }, &wins, &mons, (0, 0));
    assert_eq!(confirmed(a), Some(wins[1]));

    // Monitor mode tracks monitors; All ignores presses.
    let mut st = CanvasState::new();
    let _ = canvas_update(&mut st, CaptureMode::Monitor, CanvasEvent::CursorMoved { window_hit: Some(1), monitor_hit: Some(0) }, &wins, &mons, (0, 0));
    assert_eq!(st.hovered, Some(0));
    let a = canvas_update(&mut st, CaptureMode::Monitor, CanvasEvent::LeftPressed { inside: true }, &wins, &mons, (0, 0));
    assert_eq!(confirmed(a), Some(mons[0]));
    let mut st = CanvasState::new();
    assert!(canvas_update(&mut st, CaptureMode::All, CanvasEvent::LeftPressed { inside: true }, &wins, &mons, (0, 0)).is_none());
}

#[test]
fn toolbar_shows_enabled_modes_in_order() {
    let all = FreezeButtons { crop: true, window: true, monitor: true, all: true, cancel: true };
    assert_eq!(
        toolbar_buttons(&all, CaptureMode::Window),
        vec![
            (CaptureMode::Crop, false),
            (CaptureMode::Window, true),
            (CaptureMode::Monitor, false),
            (CaptureMode::All, false),
        ]
    );
    let some = FreezeButtons { crop: false, window: true, monitor: false, all: true, cancel: false };
    assert_eq!(toolbar_buttons(&some, CaptureMode::All), vec![(CaptureMode::Window, false), (CaptureMode::All, false)]);
    let none = FreezeButtons { crop: false, window: false, monitor: false, all: false, cancel: true };
    assert!(toolbar_buttons(&none, CaptureMode::Crop).is_empty());
}
