//! The error type of the library.
//!
//! Failures that come from the operating system or from outside libraries are
//! carried as the text that describes them, so that every error is a plain
//! value that contracts can speak of.

use vstd::prelude::*;

verus! {

/// Everything that can make a capture fail.
#[derive(Debug)]
pub enum AppError {
    /// A command could not be started: the command and the reason.
    CommandNotFound(String, String),
    /// A command ran and failed: the command and its exit status.
    CommandFailed(String, String),
    /// Talking to the Hyprland socket failed: the request and the reason.
    HyprlandIpc(String, String),
    /// An environment variable needed for Hyprland IPC is missing: its name and the reason.
    HyprlandEnvVar(String, String),
    /// A Hyprland reply was not the JSON expected: the request and the reason.
    HyprlandJson(String, String),
    /// The configuration is not acceptable.
    Config(String),
    /// The configuration file is not valid TOML for the schema.
    TomlParse(String),
    /// The user dismissed the selection.
    UserCancelled,
    /// The region selector printed nothing.
    EmptyGeometry,
    /// No monitor is marked as focused.
    NoFocusedMonitor,
    /// Encoding or writing an image failed.
    Image(String),
    /// The overlay surface could not be run.
    LayerShell(String),
    /// A file or directory could not be used: the path and the reason.
    FileSystem(String, String),
    /// Any other failure, described.
    Other(String),
}

/// The text of an `AppError::Other` or `AppError::Config`, if it is one of these.
pub open spec fn other_message(e: AppError) -> Option<Seq<char>> {
    match e {
        AppError::Other(m) => Some(m@),
        _ => None,
    }
}

} // verus!
