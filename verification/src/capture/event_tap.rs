//! Why a capture source could not be started.

use vstd::prelude::*;

verus! {

/// Why capturing could not begin.
#[derive(Debug, Clone, PartialEq, Eq)]
pub enum CaptureError {
    AccessibilityDenied,
    EventTapCreation(String),
    RunLoopSource(String),
    PlatformNotSupported,
}

impl CaptureError {
    /// The text shown to the user for this error.
    pub open spec fn message_spec(self) -> Seq<char> {
        match self {
            CaptureError::AccessibilityDenied => "Accessibility permission not granted"@,
            CaptureError::EventTapCreation(why) => "Failed to create event tap: "@ + why@,
            CaptureError::RunLoopSource(why) => "Failed to create runloop source: "@ + why@,
            CaptureError::PlatformNotSupported => "Not supported on this platform"@,
        }
    }

    /// The text shown to the user for this error.
    pub fn message(&self) -> (s: String)
        ensures
            s@ == self.message_spec(),
    {
        match self {
            CaptureError::AccessibilityDenied => String::from_str(
                "Accessibility permission not granted",
            ),
            CaptureError::EventTapCreation(why) => {
                let mut s = String::from_str("Failed to create event tap: ");
                s.append(why.as_str());
                s
            },
            CaptureError::RunLoopSource(why) => {
                let mut s = String::from_str("Failed to create runloop source: ");
                s.append(why.as_str());
                s
            },
            CaptureError::PlatformNotSupported => String::from_str("Not supported on this platform"),
        }
    }
}

} // verus!
