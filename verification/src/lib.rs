//! Verified core of a Hyprland screenshot tool: parsing the selected region
//! and clamping crops, colour strings, configuration rules and paths, the
//! Hyprland data, the decisions of a screen copy session, turning captured
//! frames into images and compositing monitors, the freeze-mode selection
//! state machine, and the texts and command of the notifications.

pub mod text;
pub mod error;
pub mod geometry;
pub mod hyprland;
pub mod paths;
pub mod colors;
pub mod config;
pub mod freeze;
pub mod pixels;
pub mod capture;
pub mod notify;
pub mod overlay;
pub mod screencopy;
