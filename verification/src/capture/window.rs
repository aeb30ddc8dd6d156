//! The window and process that had the focus when a key went down.

use vstd::prelude::*;

verus! {

/// A window, by its process and its title.
#[derive(Debug, Clone)]
pub struct WindowInfo {
    pub process_name: String,
    pub window_title: String,
    pub geometry: Option<WindowGeometry>,
}

/// A window's place and size on the screen.
#[derive(Debug, Clone, Copy, PartialEq, Eq, Structural)]
pub struct WindowGeometry {
    pub x: i32,
    pub y: i32,
    pub width: u32,
    pub height: u32,
}

impl WindowInfo {
    /// The window that stands for a focus that is not known: process and
    /// title both read `Unknown`, and there is no geometry.
    pub fn unknown() -> (info: WindowInfo)
        ensures
            info.process_name@ == "Unknown"@,
            info.window_title@ == "Unknown"@,
            info.geometry is None,
    {
        WindowInfo {
            process_name: String::from_str("Unknown"),
            window_title: String::from_str("Unknown"),
            geometry: None,
        }
    }
}

} // verus!
