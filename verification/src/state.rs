//! Structured results handed to the UI layer, and the application state
//! that persists between window creations (and, through a JSON file owned
//! by the application layer, across restarts).

use vstd::prelude::*;
use crate::bounds::CaptureBounds;

verus! {

/// Outcome of a simple application command.
#[derive(Clone, Debug)]
pub struct AppResult {
    pub success: bool,
    pub message: String,
}

/// Outcome of a capture request, emitted to the UI layer.
#[derive(Clone, Debug)]
pub struct CaptureResult {
    pub success: bool,
    pub message: String,
    pub bounds: Option<CaptureBounds>,
    pub image_data: Option<String>,
}

/// State kept for the lifetime of the process and restored when the main
/// window is recreated.
#[derive(Clone, Debug)]
pub struct AppState {
    pub screenshot_data: Option<String>,
    pub last_bounds: Option<CaptureBounds>,
    pub last_window_closed_time: Option<u64>,
}

impl Default for AppState {
    fn default() -> (s: Self)
        ensures
            s.screenshot_data is None,
            s.last_bounds is None,
            s.last_window_closed_time is None,
    {
        AppState { screenshot_data: None, last_bounds: None, last_window_closed_time: None }
    }
}

impl AppState {
    /// Update the persisted state as the main window closes: remember the
    /// session's screenshot and bounds and stamp the close time. Writing
    /// the state to its file is the application layer's part.
    pub fn record_window_close(
        &mut self,
        screenshot_data: Option<String>,
        bounds: Option<CaptureBounds>,
        now: u64,
    )
        ensures
            final(self).screenshot_data == screenshot_data,
            final(self).last_bounds == bounds,
            final(self).last_window_closed_time == Some(now),
    {
        self.screenshot_data = screenshot_data;
        self.last_bounds = bounds;
        self.last_window_closed_time = Some(now);
    }
}

/// The window-position cycle: each request moves the main window to the
/// next of three horizontal positions (center, left third, right third).
/// The index is persisted by the application layer between requests.
pub fn next_window_cycle(current: u8) -> (r: u8)
    ensures
        r == (current + 1) % 3,
        r < 3,
{
    ((current % 3) + 1) % 3
}

} // verus!
