//! Freeze mode decisions: the capture modes, the messages of the overlay and
//! what they do, the starting mode, and the saved last mode.

use vstd::prelude::*;

use crate::config::FreezeButtons;
use crate::error::AppError;
use crate::geometry::ScreenRect;
use crate::text::{chars_of, trim, trim_chars, trim_end, trim_start};

verus! {

broadcast use vstd::string::group_string_axioms;

/// What the user captures in freeze mode.
#[derive(Debug, Clone, Copy, PartialEq, Eq, Structural)]
pub enum CaptureMode {
    Crop,
    Window,
    Monitor,
    All,
}

/// What the overlay reports.
#[derive(Debug, Clone, Copy)]
pub enum Message {
    /// A toolbar button was pressed.
    ModeSelected(CaptureMode),
    /// A region (global logical coordinates) was chosen.
    SelectionConfirmed(ScreenRect),
    /// The user dismissed the overlay.
    Cancel,
}

/// The state of a freeze session: the current mode and, once decided, the outcome.
///
/// `result` is `None` while nothing is chosen (and stays so when the user
/// cancels), `Some(None)` when everything is to be kept, and `Some(Some(r))`
/// when the region `r` was chosen.
#[derive(Debug, Clone, Copy)]
pub struct SelectionState {
    pub mode: CaptureMode,
    pub result: Option<Option<ScreenRect>>,
}

impl SelectionState {
    /// A session that starts in `mode` with nothing chosen.
    pub fn new(mode: CaptureMode) -> (s: Self)
        ensures
            s.mode == mode,
            s.result is None,
    {
        SelectionState { mode, result: None }
    }

    /// Apply a message; the result says whether the overlay closes.
    ///
    /// Choosing "All" keeps the whole screen and closes; choosing another mode
    /// switches to it; a confirmed region is kept and closes; cancelling closes
    /// with nothing chosen.
    pub fn update(&mut self, message: Message) -> (exit: bool)
        ensures
            match message {
                Message::ModeSelected(CaptureMode::All) => exit && final(self).result == Some(
                    None::<ScreenRect>,
                ) && final(self).mode == old(self).mode,
                Message::ModeSelected(m) => !exit && final(self).mode == m && final(self).result
                    == old(self).result,
                Message::SelectionConfirmed(r) => exit && final(self).result == Some(Some(r))
                    && final(self).mode == old(self).mode,
                Message::Cancel => exit && *final(self) == *old(self),
            },
    {
        match message {
            Message::ModeSelected(CaptureMode::All) => {
                self.result = Some(None);
                true
            },
            Message::ModeSelected(mode) => {
                self.mode = mode;
                false
            },
            Message::SelectionConfirmed(rect) => {
                self.result = Some(Some(rect));
                true
            },
            Message::Cancel => true,
        }
    }
}

/// Whether the toolbar button of `mode` is enabled.
pub open spec fn mode_enabled(buttons: FreezeButtons, mode: CaptureMode) -> bool {
    match mode {
        CaptureMode::Crop => buttons.crop,
        CaptureMode::Window => buttons.window,
        CaptureMode::Monitor => buttons.monitor,
        CaptureMode::All => buttons.all,
    }
}

/// Each mode's button is enabled by its own flag of the toolbar settings.
pub proof fn lemma_mode_enabled(buttons: FreezeButtons)
    ensures
        mode_enabled(buttons, CaptureMode::Crop) == buttons.crop,
        mode_enabled(buttons, CaptureMode::Window) == buttons.window,
        mode_enabled(buttons, CaptureMode::Monitor) == buttons.monitor,
        mode_enabled(buttons, CaptureMode::All) == buttons.all,
{
}

/// The mode freeze mode starts in: the saved mode where its button is still
/// enabled, else the first enabled mode in toolbar order, else `Crop` so that
/// a region can still be dragged.
pub fn resolve_initial_mode(buttons: &FreezeButtons, saved: CaptureMode) -> (m: CaptureMode)
    ensures
        mode_enabled(*buttons, saved) ==> m == saved,
        !mode_enabled(*buttons, saved) ==> m == (if buttons.crop {
            CaptureMode::Crop
        } else if buttons.window {
            CaptureMode::Window
        } else if buttons.monitor {
            CaptureMode::Monitor
        } else if buttons.all {
            CaptureMode::All
        } else {
            CaptureMode::Crop
        }),
        (buttons.crop || buttons.window || buttons.monitor || buttons.all) ==> mode_enabled(*buttons, m),
{
    let saved_enabled = match saved {
        CaptureMode::Crop => buttons.crop,
        CaptureMode::Window => buttons.window,
        CaptureMode::Monitor => buttons.monitor,
        CaptureMode::All => buttons.all,
    };
    if saved_enabled {
        saved
    } else if buttons.crop {
        CaptureMode::Crop
    } else if buttons.window {
        CaptureMode::Window
    } else if buttons.monitor {
        CaptureMode::Monitor
    } else if buttons.all {
        CaptureMode::All
    } else {
        CaptureMode::Crop
    }
}

// ── Toolbar ───────────────────────────────────────────────────────────────────

/// The mode buttons the toolbar shows, in toolbar order, each with whether
/// it is drawn as the selected one: every enabled mode among Crop, Window,
/// Monitor and All; the selected mode is marked, except All, which never
/// stays selected.
pub open spec fn toolbar_entries(b: FreezeButtons, mode: CaptureMode) -> Seq<(CaptureMode, bool)> {
    let entry = |m: CaptureMode| (m, m == mode && m != CaptureMode::All);
    let crop = if b.crop { seq![entry(CaptureMode::Crop)] } else { seq![] };
    let window = if b.window { seq![entry(CaptureMode::Window)] } else { seq![] };
    let monitor = if b.monitor { seq![entry(CaptureMode::Monitor)] } else { seq![] };
    let all = if b.all { seq![entry(CaptureMode::All)] } else { seq![] };
    crop + window + monitor + all
}

/// The place of a mode's button in the toolbar, left to right.
pub open spec fn toolbar_rank(m: CaptureMode) -> int {
    match m {
        CaptureMode::Crop => 0,
        CaptureMode::Window => 1,
        CaptureMode::Monitor => 2,
        CaptureMode::All => 3,
    }
}

/// The toolbar shows a button exactly for each enabled mode, once each and
/// left to right in the order Crop, Window, Monitor, All; a button is drawn
/// as selected exactly when its mode is the current one and is not All.
pub proof fn lemma_toolbar_buttons(b: FreezeButtons, mode: CaptureMode)
    ensures
        forall|k: int|
            0 <= k < toolbar_entries(b, mode).len() ==> (#[trigger] toolbar_entries(b, mode)[k]).1
                == (toolbar_entries(b, mode)[k].0 == mode && mode != CaptureMode::All),
        forall|k1: int, k2: int|
            0 <= k1 < k2 < toolbar_entries(b, mode).len() ==> toolbar_rank(
                #[trigger] toolbar_entries(b, mode)[k1].0,
            ) < toolbar_rank(#[trigger] toolbar_entries(b, mode)[k2].0),
        b.crop <==> exists|k: int|
            0 <= k < toolbar_entries(b, mode).len() && (#[trigger] toolbar_entries(b, mode)[k]).0
                == CaptureMode::Crop,
        b.window <==> exists|k: int|
            0 <= k < toolbar_entries(b, mode).len() && (#[trigger] toolbar_entries(b, mode)[k]).0
                == CaptureMode::Window,
        b.monitor <==> exists|k: int|
            0 <= k < toolbar_entries(b, mode).len() && (#[trigger] toolbar_entries(b, mode)[k]).0
                == CaptureMode::Monitor,
        b.all <==> exists|k: int|
            0 <= k < toolbar_entries(b, mode).len() && (#[trigger] toolbar_entries(b, mode)[k]).0
                == CaptureMode::All,
{
    let e = toolbar_entries(b, mode);
    let c = if b.crop { seq![(CaptureMode::Crop, mode == CaptureMode::Crop)] } else { seq![] };
    let w = if b.window { seq![(CaptureMode::Window, mode == CaptureMode::Window)] } else { seq![] };
    let m = if b.monitor { seq![(CaptureMode::Monitor, mode == CaptureMode::Monitor)] } else { seq![] };
    let a = if b.all { seq![(CaptureMode::All, false)] } else { seq![] };
    assert(e =~= c + w + m + a);
    let cw = c + w;
    let cwm = cw + m;
    assert forall|k: int| 0 <= k < e.len() implies (#[trigger] e[k]).1 == (e[k].0 == mode && mode
        != CaptureMode::All) && toolbar_rank(e[k].0) == (if k < c.len() {
        0int
    } else if k < cw.len() {
        1int
    } else if k < cwm.len() {
        2int
    } else {
        3int
    }) by {
        if k < cwm.len() {
            assert(e[k] == cwm[k]);
            if k < cw.len() {
                assert(cwm[k] == cw[k]);
                if k < c.len() {
                    assert(cw[k] == c[k]);
                } else {
                    assert(cw[k] == w[k - c.len()]);
                }
            } else {
                assert(cwm[k] == m[k - cw.len()]);
            }
        } else {
            assert(e[k] == a[k - cwm.len()]);
        }
    }
    if b.crop {
        assert(e[0] == (CaptureMode::Crop, mode == CaptureMode::Crop));
    }
    if b.window {
        assert(e[c.len() as int].0 == CaptureMode::Window);
    }
    if b.monitor {
        assert(e[cw.len() as int].0 == CaptureMode::Monitor);
    }
    if b.all {
        assert(e[cwm.len() as int].0 == CaptureMode::All);
    }
}

/// The mode buttons of the toolbar for the enabled buttons `b` while `mode`
/// is selected.
pub fn toolbar_buttons(b: &FreezeButtons, mode: CaptureMode) -> (r: Vec<(CaptureMode, bool)>)
    ensures
        r@ == toolbar_entries(*b, mode),
        forall|k: int|
            0 <= k < r@.len() ==> (#[trigger] r@[k]).1 == (r@[k].0 == mode && mode
                != CaptureMode::All),
        forall|k1: int, k2: int|
            0 <= k1 < k2 < r@.len() ==> toolbar_rank((#[trigger] r@[k1]).0) < toolbar_rank(
                (#[trigger] r@[k2]).0,
            ),
        b.crop <==> exists|k: int| 0 <= k < r@.len() && (#[trigger] r@[k]).0 == CaptureMode::Crop,
        b.window <==> exists|k: int|
            0 <= k < r@.len() && (#[trigger] r@[k]).0 == CaptureMode::Window,
        b.monitor <==> exists|k: int|
            0 <= k < r@.len() && (#[trigger] r@[k]).0 == CaptureMode::Monitor,
        b.all <==> exists|k: int| 0 <= k < r@.len() && (#[trigger] r@[k]).0 == CaptureMode::All,
{
    proof {
        lemma_toolbar_buttons(*b, mode);
    }
    let mut r: Vec<(CaptureMode, bool)> = Vec::new();
    if b.crop {
        r.push((CaptureMode::Crop, mode == CaptureMode::Crop));
    }
    if b.window {
        r.push((CaptureMode::Window, mode == CaptureMode::Window));
    }
    if b.monitor {
        r.push((CaptureMode::Monitor, mode == CaptureMode::Monitor));
    }
    if b.all {
        r.push((CaptureMode::All, false));
    }
    assert(r@ =~= toolbar_entries(*b, mode));
    r
}

// ── Last mode ─────────────────────────────────────────────────────────────────

/// The word a mode is saved as.
pub open spec fn mode_word(mode: CaptureMode) -> Seq<char> {
    match mode {
        CaptureMode::Crop => "crop"@,
        CaptureMode::Window => "window"@,
        CaptureMode::Monitor => "monitor"@,
        CaptureMode::All => "all"@,
    }
}

/// The words a mode is saved as: `crop`, `window`, `monitor`, and `all`.
pub proof fn lemma_mode_words()
    ensures
        mode_word(CaptureMode::Crop) == seq!['c', 'r', 'o', 'p'],
        mode_word(CaptureMode::Window) == seq!['w', 'i', 'n', 'd', 'o', 'w'],
        mode_word(CaptureMode::Monitor) == seq!['m', 'o', 'n', 'i', 't', 'o', 'r'],
        mode_word(CaptureMode::All) == seq!['a', 'l', 'l'],
{
    reveal_strlit("crop");
    reveal_strlit("window");
    reveal_strlit("monitor");
    reveal_strlit("all");
}

/// The word for `mode`.
pub fn mode_to_str(mode: CaptureMode) -> (s: &'static str)
    ensures
        s@ == mode_word(mode),
{
    match mode {
        CaptureMode::Crop => "crop",
        CaptureMode::Window => "window",
        CaptureMode::Monitor => "monitor",
        CaptureMode::All => "all",
    }
}

/// The mode that saved text names, ignoring surrounding white space. "all"
/// names none: that mode is never restored.
pub open spec fn mode_named(s: Seq<char>) -> Option<CaptureMode> {
    let t = trim(s);
    if t == "crop"@ {
        Some(CaptureMode::Crop)
    } else if t == "window"@ {
        Some(CaptureMode::Window)
    } else if t == "monitor"@ {
        Some(CaptureMode::Monitor)
    } else {
        None
    }
}

fn chars_equal(a: &[char], b: &str) -> (r: bool)
    ensures
        r == (a@ == b@),
{
    let bs = chars_of(b);
    if a.len() != bs.len() {
        return false;
    }
    let mut i: usize = 0;
    while i < a.len()
        invariant
            i <= a@.len(),
            a@.len() == bs@.len(),
            bs@ == b@,
            forall|k: int| 0 <= k < i ==> a@[k] == bs@[k],
        decreases a@.len() - i,
    {
        if a[i] != bs[i] {
            return false;
        }
        i = i + 1;
    }
    assert(a@ == bs@);
    true
}

/// The mode named by saved text, if it names one.
pub fn str_to_mode(s: &str) -> (m: Option<CaptureMode>)
    ensures
        m == mode_named(s@),
{
    let cs = chars_of(s);
    let t = trim_chars(cs.as_slice());
    if chars_equal(t.as_slice(), "crop") {
        Some(CaptureMode::Crop)
    } else if chars_equal(t.as_slice(), "window") {
        Some(CaptureMode::Window)
    } else if chars_equal(t.as_slice(), "monitor") {
        Some(CaptureMode::Monitor)
    } else {
        None
    }
}

/// What to write when `mode` was the last one used: its word, or nothing for
/// "All", which fires immediately and is not an interactive mode to return to.
pub fn mode_to_save(mode: CaptureMode) -> (s: Option<&'static str>)
    ensures
        mode == CaptureMode::All ==> s is None,
        mode != CaptureMode::All ==> s is Some && s->0@ == mode_word(mode),
{
    if mode == CaptureMode::All {
        None
    } else {
        Some(mode_to_str(mode))
    }
}

/// The mode to start from given what was read from the saved file: the mode
/// it names, or `Crop` where nothing was read or it names none.
pub fn mode_from_saved(contents: Option<&str>) -> (m: CaptureMode)
    ensures
        m == match contents {
            Some(c) => match mode_named(c@) {
                Some(n) => n,
                None => CaptureMode::Crop,
            },
            None => CaptureMode::Crop,
        },
{
    match contents {
        Some(c) => match str_to_mode(c) {
            Some(m) => m,
            None => CaptureMode::Crop,
        },
        None => CaptureMode::Crop,
    }
}

/// Saving a mode other than "All" and reading it back gives the mode again;
/// "All" is not saved, and unrecognised text reads as `Crop`.
pub proof fn lemma_saved_mode_round_trip(mode: CaptureMode)
    ensures
        mode != CaptureMode::All ==> mode_named(mode_word(mode)) == Some(mode),
        mode_named(mode_word(CaptureMode::All)) is None,
{
    reveal_strlit("crop");
    reveal_strlit("window");
    reveal_strlit("monitor");
    reveal_strlit("all");
    let w = mode_word(mode);
    assert(trim_start(w) == w);
    assert(trim_end(w) == w);
    let a = mode_word(CaptureMode::All);
    assert(trim_start(a) == a);
    assert(trim_end(a) == a);
    assert("crop"@[0] != "window"@[0]);
    assert("crop"@ != "window"@);
    assert("crop"@ != "monitor"@);
    assert("window"@[0] != "monitor"@[0]);
    assert("window"@ != "monitor"@);
    assert(a != "crop"@ && a != "window"@ && a != "monitor"@);
}

// ── Outcome ───────────────────────────────────────────────────────────────────

/// What a finished session yields for the saved image: an error when the user
/// cancelled, the whole image for "All", or the chosen region moved from
/// global logical coordinates into the coordinates of the composite image,
/// whose origin is `(min_x, min_y)`.
pub fn freeze_outcome(selected: Option<Option<ScreenRect>>, min_x: i32, min_y: i32) -> (r: Result<
    Option<ScreenRect>,
    AppError,
>)
    requires
        selected matches Some(Some(s)) ==> i32::MIN <= s.x - min_x <= i32::MAX && i32::MIN <= s.y
            - min_y <= i32::MAX,
    ensures
        match selected {
            None => r matches Err(AppError::UserCancelled),
            Some(None) => r == Ok::<Option<ScreenRect>, AppError>(None),
            Some(Some(s)) => r == Ok::<Option<ScreenRect>, AppError>(
                Some(ScreenRect { x: (s.x - min_x) as i32, y: (s.y - min_y) as i32, w: s.w, h: s.h }),
            ),
        },
{
    match selected {
        None => Err(AppError::UserCancelled),
        Some(None) => Ok(None),
        Some(Some(s)) => Ok(Some(ScreenRect { x: s.x - min_x, y: s.y - min_y, w: s.w, h: s.h })),
    }
}

/// The pointer shown over the overlay.
#[derive(Debug, Clone, Copy, PartialEq, Eq, Structural)]
pub enum CursorStyle {
    Crosshair,
    Pointer,
    Default,
}

/// The pointer for the current state: a crosshair while dragging or in crop
/// mode, a hand over a selectable window or monitor, the default otherwise.
pub fn cursor_style(cropping: bool, mode: CaptureMode, hovering: bool) -> (c: CursorStyle)
    ensures
        c == (if cropping || mode == CaptureMode::Crop {
            CursorStyle::Crosshair
        } else if (mode == CaptureMode::Window || mode == CaptureMode::Monitor) && hovering {
            CursorStyle::Pointer
        } else {
            CursorStyle::Default
        }),
{
    if cropping || mode == CaptureMode::Crop {
        CursorStyle::Crosshair
    } else if (mode == CaptureMode::Window || mode == CaptureMode::Monitor) && hovering {
        CursorStyle::Pointer
    } else {
        CursorStyle::Default
    }
}


// ── The selection canvas ──────────────────────────────────────────────────────

/// What the selection canvas remembers between events.
#[derive(Debug, Clone, Copy, PartialEq, Eq, Structural)]
pub struct CanvasState {
    /// A crop rectangle is being dragged.
    pub cropping: bool,
    /// The window or monitor under the pointer.
    pub hovered: Option<usize>,
}

impl CanvasState {
    /// Nothing dragged, nothing hovered.
    pub fn new() -> (s: Self)
        ensures
            !s.cropping,
            s.hovered is None,
    {
        CanvasState { cropping: false, hovered: None }
    }
}

/// A pointer event on the canvas, with what the pointer position means.
#[derive(Debug, Clone, Copy)]
pub enum CanvasEvent {
    /// The pointer moved; the windows and monitors list indices of the first
    /// window and first monitor under it, if any.
    CursorMoved { window_hit: Option<usize>, monitor_hit: Option<usize> },
    /// The left button went down; `inside` says whether the pointer is on the canvas.
    LeftPressed { inside: bool },
    /// The left button went up; `rect` is the rectangle dragged since it went
    /// down, in canvas coordinates.
    LeftReleased { rect: ScreenRect },
    /// Anything else.
    Other,
}

/// What the canvas asks of the overlay after an event.
#[derive(Debug, Clone, Copy)]
pub enum CanvasAction {
    /// Draw again.
    Redraw,
    /// Draw again and keep the event from other widgets.
    RedrawAndCapture,
    /// Report the message and keep the event from other widgets.
    Publish(Message),
}

/// The smallest crop, in logical pixels along each side, that counts as a selection.
pub open spec fn min_crop() -> int {
    5
}

/// A dragged rectangle counts as a selection from 5 logical pixels along
/// each side on.
pub proof fn lemma_min_crop()
    ensures
        min_crop() == 5,
{
}

/// Handle a pointer event on the canvas of the monitor whose origin is
/// `offset` in global logical coordinates.
///
/// - Moving redraws while a crop is dragged; otherwise, in window or monitor
///   mode, it tracks the item under the pointer and redraws when that changes.
/// - Pressing starts a crop in crop mode (on the canvas), and in window or
///   monitor mode confirms the hovered item's rectangle.
/// - Releasing ends a drag: a rectangle at least 5 × 5 is confirmed in global
///   coordinates, a smaller one is dropped.
pub fn canvas_update(
    state: &mut CanvasState,
    mode: CaptureMode,
    event: CanvasEvent,
    windows: &[ScreenRect],
    monitors: &[ScreenRect],
    offset: (i32, i32),
) -> (action: Option<CanvasAction>)
    requires
        event is LeftPressed && mode == CaptureMode::Window && old(state).hovered is Some
            ==> old(state).hovered->0 < windows@.len(),
        event is LeftPressed && mode == CaptureMode::Monitor && old(state).hovered is Some
            ==> old(state).hovered->0 < monitors@.len(),
        event matches CanvasEvent::LeftReleased { rect } ==> (old(state).cropping && rect.w
            >= min_crop() && rect.h >= min_crop() ==> i32::MIN <= rect.x + offset.0 <= i32::MAX
            && i32::MIN <= rect.y + offset.1 <= i32::MAX),
    ensures
        match event {
            CanvasEvent::CursorMoved { window_hit, monitor_hit } => if old(state).cropping {
                *final(state) == *old(state) && action matches Some(CanvasAction::Redraw)
            } else {
                let hit = match mode {
                    CaptureMode::Window => window_hit,
                    CaptureMode::Monitor => monitor_hit,
                    _ => None,
                };
                &&& final(state).cropping == old(state).cropping
                &&& final(state).hovered == hit
                &&& (hit != old(state).hovered ==> action matches Some(CanvasAction::Redraw))
                &&& (hit == old(state).hovered ==> action is None)
            },
            CanvasEvent::LeftPressed { inside } => match mode {
                CaptureMode::Crop => if inside {
                    final(state).cropping && final(state).hovered == old(state).hovered
                        && action matches Some(CanvasAction::RedrawAndCapture)
                } else {
                    *final(state) == *old(state) && action is None
                },
                CaptureMode::Window => *final(state) == *old(state) && match old(state).hovered {
                    Some(i) => action == Some(
                        CanvasAction::Publish(Message::SelectionConfirmed(windows@[i as int])),
                    ),
                    None => action is None,
                },
                CaptureMode::Monitor => *final(state) == *old(state) && match old(state).hovered {
                    Some(i) => action == Some(
                        CanvasAction::Publish(Message::SelectionConfirmed(monitors@[i as int])),
                    ),
                    None => action is None,
                },
                CaptureMode::All => *final(state) == *old(state) && action is None,
            },
            CanvasEvent::LeftReleased { rect } => if old(state).cropping {
                &&& !final(state).cropping
                &&& final(state).hovered == old(state).hovered
                &&& (rect.w >= min_crop() && rect.h >= min_crop()) ==> action == Some(
                    CanvasAction::Publish(
                        Message::SelectionConfirmed(
                            ScreenRect {
                                x: (rect.x + offset.0) as i32,
                                y: (rect.y + offset.1) as i32,
                                w: rect.w,
                                h: rect.h,
                            },
                        ),
                    ),
                )
                &&& !(rect.w >= min_crop() && rect.h >= min_crop()) ==> action matches Some(
                    CanvasAction::Redraw,
                )
            } else {
                *final(state) == *old(state) && action is None
            },
            CanvasEvent::Other => *final(state) == *old(state) && action is None,
        },
{
    match event {
        CanvasEvent::CursorMoved { window_hit, monitor_hit } => {
            if state.cropping {
                return Some(CanvasAction::Redraw);
            }
            let prev = state.hovered;
            state.hovered = match mode {
                CaptureMode::Window => window_hit,
                CaptureMode::Monitor => monitor_hit,
                _ => None,
            };
            if state.hovered != prev {
                return Some(CanvasAction::Redraw);
            }
            None
        },
        CanvasEvent::LeftPressed { inside } => {
            match mode {
                CaptureMode::Crop => {
                    if inside {
                        state.cropping = true;
                        return Some(CanvasAction::RedrawAndCapture);
                    }
                    None
                },
                CaptureMode::Window => match state.hovered {
                    Some(idx) => Some(
                        CanvasAction::Publish(Message::SelectionConfirmed(windows[idx])),
                    ),
                    None => None,
                },
                CaptureMode::Monitor => match state.hovered {
                    Some(idx) => Some(
                        CanvasAction::Publish(Message::SelectionConfirmed(monitors[idx])),
                    ),
                    None => None,
                },
                CaptureMode::All => None,
            }
        },
        CanvasEvent::LeftReleased { rect } => {
            if state.cropping {
                state.cropping = false;
                if rect.w >= 5 && rect.h >= 5 {
                    let global = ScreenRect {
                        x: rect.x + offset.0,
                        y: rect.y + offset.1,
                        w: rect.w,
                        h: rect.h,
                    };
                    return Some(CanvasAction::Publish(Message::SelectionConfirmed(global)));
                }
                return Some(CanvasAction::Redraw);
            }
            None
        },
        CanvasEvent::Other => None,
    }
}

} // verus!
