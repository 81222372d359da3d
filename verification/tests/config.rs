use crop_hypr::config::{
    default_capture_window_border, default_enabled, default_error_body, default_error_summary,
    default_filename_pattern, default_glyph_all, default_glyph_cancel, default_glyph_crop,
    default_glyph_monitor, default_glyph_window, default_success_action, default_success_body,
    default_success_summary, default_success_timeout, default_true, png_file_name,
    validate_filename_pattern, FreezeButtons, FreezeGlyphs, Notifications, ToolbarPosition,
};
use crop_hypr::error::AppError;
use crop_hypr::paths::{default_save_path, expand_tilde, join_path};

#[test]
fn default_values() {
    let n = Notifications::default();
    assert!(n.enabled);
    assert_eq!(n.success_action, "xdg-open");
    assert_eq!(n.success_timeout, 5000);
    assert_eq!(n.success_summary, "Screenshot saved");
    assert_eq!(n.success_body, "{path}");
    assert_eq!(n.error_summary, "Screenshot failed");
    assert_eq!(n.error_body, "{error}");
}

#[test]
fn notification_defaults_match_helpers() {
    let n = Notifications::default();
    assert_eq!(n.enabled, default_enabled());
    assert_eq!(n.success_action, default_success_action());
    assert_eq!(n.success_timeout, default_success_timeout());
    assert_eq!(n.success_summary, default_success_summary());
    assert_eq!(n.success_body, default_success_body());
    assert_eq!(n.error_summary, default_error_summary());
    assert_eq!(n.error_body, default_error_body());
}

fn default_freeze_glyphs() {
    let g = FreezeGlyphs::default();
    assert_eq!(g.crop, default_glyph_crop());
    assert_eq!(g.window, default_glyph_window());
    assert_eq!(g.monitor, default_glyph_monitor());
    assert_eq!(g.all, default_glyph_all());
    assert_eq!(g.cancel, default_glyph_cancel());
}

#[test]
fn config_test_default_freeze_glyphs() {
    default_freeze_glyphs();
}

#[test]
fn mod_test_default_freeze_glyphs() {
    default_freeze_glyphs();
}

#[test]
fn glyph_defaults_are_the_nerd_font_code_points() {
    assert_eq!(default_glyph_crop(), "\u{F019F}");
    assert_eq!(default_glyph_window(), "\u{EB7F}");
    assert_eq!(default_glyph_monitor(), "\u{F0379}");
    assert_eq!(default_glyph_all(), "\u{F004C}");
    assert_eq!(default_glyph_cancel(), "\u{F05AD}");
}

fn default_config_filename_pattern() {
    assert_eq!(default_filename_pattern(), "hyprsnap_%Y%m%d_%H%M%S");
}

#[test]
fn config_test_default_config_filename_pattern() {
    default_config_filename_pattern();
}

#[test]
fn mod_test_default_config_filename_pattern() {
    default_config_filename_pattern();
}

fn default_config_save_path() {
    let pictures = dirs::picture_dir().map(|p| p.to_string_lossy().into_owned());
    let home = dirs::home_dir().map(|p| p.to_string_lossy().into_owned());
    let save_path = default_save_path(pictures.as_deref(), home.as_deref());
    assert!(
        save_path.contains("Screenshots"),
        "save_path should contain 'Screenshots'"
    );
}

#[test]
fn config_test_default_config_save_path() {
    default_config_save_path();
}

#[test]
fn mod_test_default_config_save_path() {
    default_config_save_path();
}

fn validation_accepts_non_empty_pattern() {
    assert!(validate_filename_pattern("test").is_ok());
}

fn validation_rejects_empty_pattern() {
    match validate_filename_pattern("").unwrap_err() {
        AppError::Config(m) => assert!(m.contains("filename_pattern cannot be empty")),
        _ => panic!("expected a configuration error"),
    }
}

fn validation_rejects_whitespace_only_pattern() {
    assert!(validate_filename_pattern("   ").is_err());
}

#[test]
fn config_test_validation_accepts_non_empty_pattern() {
    validation_accepts_non_empty_pattern();
}
#[test]
fn mod_test_validation_accepts_non_empty_pattern() {
    validation_accepts_non_empty_pattern();
}
#[test]
fn config_test_validation_rejects_empty_pattern() {
    validation_rejects_empty_pattern();
}
#[test]
fn mod_test_validation_rejects_empty_pattern() {
    validation_rejects_empty_pattern();
}
#[test]
fn config_test_validation_rejects_whitespace_only_pattern() {
    validation_rejects_whitespace_only_pattern();
}
#[test]
fn mod_test_validation_rejects_whitespace_only_pattern() {
    validation_rejects_whitespace_only_pattern();
}

fn toolbar_position_default_is_top() {
    assert_eq!(ToolbarPosition::default(), ToolbarPosition::Top);
}

#[test]
fn config_test_toolbar_position_default_is_top() {
    toolbar_position_default_is_top();
}

#[test]
fn mod_test_toolbar_position_default_is_top() {
    toolbar_position_default_is_top();
}

fn output_filename_has_png_extension() {
    assert!(png_file_name(&default_filename_pattern()).ends_with(".png"));
}

#[test]
fn config_test_output_filename_has_png_extension() {
    output_filename_has_png_extension();
}

#[test]
fn mod_test_output_filename_has_png_extension() {
    output_filename_has_png_extension();
}

fn output_path_is_under_save_path() {
    let save_path = "/home/user/Pictures/Screenshots";
    let path = join_path(save_path, &png_file_name("hyprsnap_20240101_000000"));
    assert_eq!(
        std::path::Path::new(&path).parent().unwrap(),
        std::path::Path::new(save_path)
    );
}

#[test]
fn config_test_output_path_is_under_save_path() {
    output_path_is_under_save_path();
}

#[test]
fn mod_test_output_path_is_under_save_path() {
    output_path_is_under_save_path();
}

fn tilde_expansion() {
    let home = dirs::home_dir()
        .unwrap_or_else(|| std::path::PathBuf::from("."))
        .to_string_lossy()
        .into_owned();
    let home_path = std::path::PathBuf::from(&home);

    assert_eq!(
        std::path::PathBuf::from(expand_tilde("~/test/dir", &home)),
        home_path.join("test/dir")
    );
    assert_eq!(std::path::PathBuf::from(expand_tilde("~", &home)), home_path);
    assert_eq!(
        std::path::PathBuf::from(expand_tilde("/tmp/test", &home)),
        std::path::PathBuf::from("/tmp/test")
    );
    // Bare relative path is anchored to $HOME.
    assert_eq!(
        std::path::PathBuf::from(expand_tilde("Screenshots", &home)),
        home_path.join("Screenshots")
    );
}

#[test]
fn config_test_tilde_expansion() {
    tilde_expansion();
}

#[test]
fn mod_test_tilde_expansion() {
    tilde_expansion();
}

#[test]
fn tilde_expansion_exact_text() {
    assert_eq!(expand_tilde("~/a/b", "/home/u"), "/home/u/a/b");
    assert_eq!(expand_tilde("~/a", "/home/u/"), "/home/u/a");
    assert_eq!(expand_tilde("~", "/home/u"), "/home/u");
    assert_eq!(expand_tilde("x", "/home/u"), "/home/u/x");
    assert_eq!(expand_tilde("~user/x", "/home/u"), "/home/u/~user/x");
    assert_eq!(expand_tilde("~//abs", "/home/u"), "/abs");
    assert_eq!(expand_tilde("x", "."), "./x");
}

#[test]
fn buttons_and_flags() {
    let b = FreezeButtons::default();
    assert!(b.crop && b.window && b.monitor && b.all && b.cancel);
    assert!(b.any_visible());
    assert!(b.any_capture_enabled());
    let only_cancel = FreezeButtons { crop: false, window: false, monitor: false, all: false, cancel: true };
    assert!(only_cancel.any_visible());
    assert!(!only_cancel.any_capture_enabled());
    let none = FreezeButtons { cancel: false, ..only_cancel };
    assert!(!none.any_visible());
    assert!(default_true());
    assert!(!default_capture_window_border());
}

#[test]
fn png_name_appends_extension() {
    assert_eq!(png_file_name("shot"), "shot.png");
    assert_eq!(png_file_name(""), ".png");
}
