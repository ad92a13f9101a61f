//! Desktop control on a machine without a display: the shapes the tools speak
//! of, and an accessibility controller that is never available.
use vstd::prelude::*;
use vstd::string::StringExecFns;

verus! {

/// A rectangle of the screen, in pixels.
#[derive(Clone, Copy, Debug, PartialEq, Eq)]
pub struct Rect {
    pub x: i32,
    pub y: i32,
    pub width: i32,
    pub height: i32,
}

/// A running application, as the accessibility interface names it.
pub struct AXApplication;

/// An element of an application's interface.
pub struct AXElement;

/// The accessibility controller.
pub struct MacAxController;

/// A capability that this machine does not offer.
#[derive(Debug, PartialEq, Eq)]
pub struct Unsupported {
    pub message: String,
}

/// What `MacAxController::new` reports.
pub const ACCESSIBILITY_UNSUPPORTED: &'static str =
    "macOS accessibility not supported in headless environment";

impl MacAxController {
    /// Always fails: there is no accessibility interface here.
    pub fn new() -> (r: Result<Self, Unsupported>)
        ensures
            r matches Err(e) && e.message@ == ACCESSIBILITY_UNSUPPORTED@,
    {
        Err(Unsupported { message: String::from_str(ACCESSIBILITY_UNSUPPORTED) })
    }
}

} // verus!
