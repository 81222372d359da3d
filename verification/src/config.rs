//! The configuration rules: default values, the toolbar layout choices, the
//! notification templates and what makes a configuration acceptable.

use vstd::prelude::*;

use crate::error::AppError;
use crate::text::{chars_of, trim, trim_chars};

verus! {

broadcast use vstd::string::group_string_axioms;

// ── General ───────────────────────────────────────────────────────────────────

/// By default window captures do not include the window border.
pub fn default_capture_window_border() -> (b: bool)
    ensures
        !b,
{
    false
}

/// The default strftime pattern of screenshot file names.
pub fn default_filename_pattern() -> (s: String)
    ensures
        s@ == "hyprsnap_%Y%m%d_%H%M%S"@,
{
    String::from_str("hyprsnap_%Y%m%d_%H%M%S")
}

/// A file name pattern is acceptable unless it is empty or only white space.
pub fn validate_filename_pattern(pattern: &str) -> (r: Result<(), AppError>)
    ensures
        r is Ok <==> trim(pattern@).len() > 0,
        r is Err ==> (r matches Err(AppError::Config(m)) && m@
            == "filename_pattern cannot be empty"@),
{
    let cs = chars_of(pattern);
    let t = trim_chars(cs.as_slice());
    if t.len() == 0 {
        return Err(AppError::Config(String::from_str("filename_pattern cannot be empty")));
    }
    Ok(())
}

/// The file name of a screenshot whose stem is `stem`: the stem with `.png` appended.
pub fn png_file_name(stem: &str) -> (s: String)
    ensures
        s@ == stem@ + ".png"@,
{
    let mut s = String::from_str(stem);
    s.append(".png");
    s
}

// ── Freeze toolbar ────────────────────────────────────────────────────────────

/// Icon glyphs displayed in the freeze-mode toolbar.
/// Defaults match the Nerd Fonts / Material Design icons used by default.
#[derive(Debug, Clone)]
pub struct FreezeGlyphs {
    pub crop: String,
    pub window: String,
    pub monitor: String,
    pub all: String,
    pub cancel: String,
}

/// The default crop glyph, U+F019F.
pub fn default_glyph_crop() -> (s: String)
    ensures
        s@ == seq!['\u{F019F}'],
{
    proof {
        reveal_strlit("\u{F019F}");
    }
    String::from_str("\u{F019F}")
}

/// The default window glyph, U+EB7F.
pub fn default_glyph_window() -> (s: String)
    ensures
        s@ == seq!['\u{EB7F}'],
{
    proof {
        reveal_strlit("\u{EB7F}");
    }
    String::from_str("\u{EB7F}")
}

/// The default monitor glyph, U+F0379.
pub fn default_glyph_monitor() -> (s: String)
    ensures
        s@ == seq!['\u{F0379}'],
{
    proof {
        reveal_strlit("\u{F0379}");
    }
    String::from_str("\u{F0379}")
}

/// The default all-monitors glyph, U+F004C.
pub fn default_glyph_all() -> (s: String)
    ensures
        s@ == seq!['\u{F004C}'],
{
    proof {
        reveal_strlit("\u{F004C}");
    }
    String::from_str("\u{F004C}")
}

/// The default cancel glyph, U+F05AD.
pub fn default_glyph_cancel() -> (s: String)
    ensures
        s@ == seq!['\u{F05AD}'],
{
    proof {
        reveal_strlit("\u{F05AD}");
    }
    String::from_str("\u{F05AD}")
}

impl Default for FreezeGlyphs {
    fn default() -> (g: Self)
        ensures
            g.crop@ == seq!['\u{F019F}'],
            g.window@ == seq!['\u{EB7F}'],
            g.monitor@ == seq!['\u{F0379}'],
            g.all@ == seq!['\u{F004C}'],
            g.cancel@ == seq!['\u{F05AD}'],
    {
        Self {
            crop: default_glyph_crop(),
            window: default_glyph_window(),
            monitor: default_glyph_monitor(),
            all: default_glyph_all(),
            cancel: default_glyph_cancel(),
        }
    }
}

/// Controls which buttons are visible in the freeze-mode toolbar.
/// Buttons set to `false` are omitted entirely; if all are `false`, the
/// toolbar container is not rendered.
#[derive(Debug, Clone, Copy)]
pub struct FreezeButtons {
    pub crop: bool,
    pub window: bool,
    pub monitor: bool,
    pub all: bool,
    pub cancel: bool,
}

/// Toolbar buttons are shown unless configured otherwise.
pub fn default_true() -> (b: bool)
    ensures
        b,
{
    true
}

impl Default for FreezeButtons {
    fn default() -> (b: Self)
        ensures
            b.crop && b.window && b.monitor && b.all && b.cancel,
    {
        Self { crop: true, window: true, monitor: true, all: true, cancel: true }
    }
}

impl FreezeButtons {
    /// Returns `true` if at least one button (including cancel) is enabled.
    pub fn any_visible(&self) -> (b: bool)
        ensures
            b == (self.crop || self.window || self.monitor || self.all || self.cancel),
    {
        self.crop || self.window || self.monitor || self.all || self.cancel
    }

    /// Returns `true` if at least one *capture-mode* button is enabled.
    ///
    /// When this returns `false` (all of crop/window/monitor/all are disabled),
    /// freeze mode falls back to `Crop` canvas selection so the user can still
    /// drag-select a region even without toolbar buttons. The `cancel` button is
    /// excluded because it does not initiate a capture.
    pub fn any_capture_enabled(&self) -> (b: bool)
        ensures
            b == (self.crop || self.window || self.monitor || self.all),
    {
        self.crop || self.window || self.monitor || self.all
    }
}

/// Edge of the screen where the freeze-mode toolbar is docked.
#[derive(Debug, Clone, Copy, PartialEq, Eq, Structural)]
pub enum ToolbarPosition {
    Top,
    Bottom,
    Left,
    Right,
}

impl Default for ToolbarPosition {
    fn default() -> (p: Self)
        ensures
            p == ToolbarPosition::Top,
    {
        ToolbarPosition::Top
    }
}

// ── Notifications ─────────────────────────────────────────────────────────────

/// What is shown when a capture succeeds or fails.
///
/// Available variables:
/// - `{path}`: path to the saved screenshot (`success_summary`, `success_body`, `success_action`)
/// - `{error}`: error message (`error_summary`, `error_body`)
///
/// `success_timeout` (milliseconds) is how long to wait for the user to click
/// "Open". Zero means fire-and-forget: no action button is shown.
#[derive(Debug, Clone)]
pub struct Notifications {
    pub enabled: bool,
    pub success_action: String,
    pub success_timeout: u32,
    pub success_summary: String,
    pub success_body: String,
    pub error_summary: String,
    pub error_body: String,
}

/// Notifications are on by default.
pub fn default_enabled() -> (b: bool)
    ensures
        b,
{
    true
}

/// The default command that opens a saved screenshot.
pub fn default_success_action() -> (s: String)
    ensures
        s@ == "xdg-open"@,
{
    String::from_str("xdg-open")
}

/// The default time to wait for the "Open" action, in milliseconds.
pub fn default_success_timeout() -> (t: u32)
    ensures
        t == 5000,
{
    5000
}

/// The default summary of the success notification.
pub fn default_success_summary() -> (s: String)
    ensures
        s@ == "Screenshot saved"@,
{
    String::from_str("Screenshot saved")
}

/// The default body of the success notification.
pub fn default_success_body() -> (s: String)
    ensures
        s@ == "{path}"@,
{
    String::from_str("{path}")
}

/// The default summary of the failure notification.
pub fn default_error_summary() -> (s: String)
    ensures
        s@ == "Screenshot failed"@,
{
    String::from_str("Screenshot failed")
}

/// The default body of the failure notification.
pub fn default_error_body() -> (s: String)
    ensures
        s@ == "{error}"@,
{
    String::from_str("{error}")
}

impl Default for Notifications {
    fn default() -> (n: Self)
        ensures
            n.enabled,
            n.success_action@ == "xdg-open"@,
            n.success_timeout == 5000,
            n.success_summary@ == "Screenshot saved"@,
            n.success_body@ == "{path}"@,
            n.error_summary@ == "Screenshot failed"@,
            n.error_body@ == "{error}"@,
    {
        Self {
            enabled: default_enabled(),
            success_action: default_success_action(),
            success_timeout: default_success_timeout(),
            success_summary: default_success_summary(),
            success_body: default_success_body(),
            error_summary: default_error_summary(),
            error_body: default_error_body(),
        }
    }
}

} // verus!
