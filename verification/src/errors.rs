//! The error taxonomy of the capture core.

use vstd::prelude::*;
use vstd::string::StringExecFns;

verus! {

/// Why a capture request failed.
///
/// `PermissionDenied` is user-actionable; `RegionTooSmall` means the clamped
/// selection collapsed below the minimum usable size; `DeviceFailure` and
/// `EncodingFailure` are transient platform or codec errors;
/// `WindowOperationFailure` reports a window-system call that failed without
/// aborting the show/hide sequence. None of these is fatal to the process.
#[derive(Clone, Debug)]
pub enum CaptureError {
    PermissionDenied { message: String },
    RegionTooSmall { width: u32, height: u32 },
    DeviceFailure { message: String },
    EncodingFailure { message: String },
    WindowOperationFailure { message: String },
}

impl CaptureError {
    /// A printable description of the error; the application layer shows it.
    pub fn describe(&self) -> (s: String)
        ensures
            match self {
                CaptureError::PermissionDenied { message } => s@ == "permission denied: "@
                    + message@,
                CaptureError::RegionTooSmall { .. } => s@
                    == "capture area too small after adjustment"@,
                CaptureError::DeviceFailure { message } => s@ == "screen capture failed: "@
                    + message@,
                CaptureError::EncodingFailure { message } => s@ == "image encoding failed: "@
                    + message@,
                CaptureError::WindowOperationFailure { message } => s@
                    == "window operation failed: "@ + message@,
            },
    {
        match self {
            CaptureError::PermissionDenied { message } => {
                let mut s = String::from_str("permission denied: ");
                s.append(message.as_str());
                s
            },
            CaptureError::RegionTooSmall { .. } => String::from_str(
                "capture area too small after adjustment",
            ),
            CaptureError::DeviceFailure { message } => {
                let mut s = String::from_str("screen capture failed: ");
                s.append(message.as_str());
                s
            },
            CaptureError::EncodingFailure { message } => {
                let mut s = String::from_str("image encoding failed: ");
                s.append(message.as_str());
                s
            },
            CaptureError::WindowOperationFailure { message } => {
                let mut s = String::from_str("window operation failed: ");
                s.append(message.as_str());
                s
            },
        }
    }
}

} // verus!
