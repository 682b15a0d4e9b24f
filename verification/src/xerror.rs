//! Which errors of the X server a window manager lives with.

use vstd::prelude::*;

verus! {

/// Request code of `SetInputFocus` in the core protocol.
pub const X_SETINPUTFOCUS: u8 = 42;

/// Request code of `PolyText8`.
pub const X_POLYTEXT8: u8 = 74;

/// Request code of `PolyFillRectangle`.
pub const X_POLYFILLRECTANGLE: u8 = 70;

/// Request code of `PolySegment`.
pub const X_POLYSEGMENT: u8 = 66;

/// Request code of `ConfigureWindow`.
pub const X_CONFIGUREWINDOW: u8 = 12;

/// Request code of `GrabButton`.
pub const X_GRABBUTTON: u8 = 28;

/// Request code of `GrabKey`.
pub const X_GRABKEY: u8 = 33;

/// Request code of `CopyArea`.
pub const X_COPYAREA: u8 = 62;

/// The error code `BadWindow` of the core protocol.
pub open spec fn spec_bad_window() -> u8 {
    3
}

/// The error code `BadMatch`.
pub open spec fn spec_bad_match() -> u8 {
    8
}

/// The error code `BadDrawable`.
pub open spec fn spec_bad_drawable() -> u8 {
    9
}

/// The error code `BadAccess`.
pub open spec fn spec_bad_access() -> u8 {
    10
}

/// Reads `x11::xlib::BadWindow`, which that crate declares as the constant 3.
#[verifier::external_body]
fn bad_window() -> (code: u8)
    ensures
        code == spec_bad_window(),
{
    x11::xlib::BadWindow
}

/// Reads `x11::xlib::BadMatch`, which that crate declares as the constant 8.
#[verifier::external_body]
fn bad_match() -> (code: u8)
    ensures
        code == spec_bad_match(),
{
    x11::xlib::BadMatch
}

/// Reads `x11::xlib::BadDrawable`, which that crate declares as the
/// constant 9.
#[verifier::external_body]
fn bad_drawable() -> (code: u8)
    ensures
        code == spec_bad_drawable(),
{
    x11::xlib::BadDrawable
}

/// Reads `x11::xlib::BadAccess`, which that crate declares as the constant
/// 10.
#[verifier::external_body]
fn bad_access() -> (code: u8)
    ensures
        code == spec_bad_access(),
{
    x11::xlib::BadAccess
}

/// Whether an error is one that a window manager has to live with: any
/// request on a window that is gone, and the failures of the requests that
/// race with clients going away.
pub open spec fn harmless(request_code: u8, error_code: u8) -> bool {
    ||| error_code == spec_bad_window()
    ||| request_code == X_SETINPUTFOCUS && error_code == spec_bad_match()
    ||| request_code == X_POLYTEXT8 && error_code == spec_bad_drawable()
    ||| request_code == X_POLYFILLRECTANGLE && error_code == spec_bad_drawable()
    ||| request_code == X_POLYSEGMENT && error_code == spec_bad_drawable()
    ||| request_code == X_CONFIGUREWINDOW && error_code == spec_bad_match()
    ||| request_code == X_GRABBUTTON && error_code == spec_bad_access()
    ||| request_code == X_GRABKEY && error_code == spec_bad_access()
    ||| request_code == X_COPYAREA && error_code == spec_bad_drawable()
}

/// Tells whether an error of the X server is to be ignored. Any other
/// error is fatal.
pub fn xerror(request_code: u8, error_code: u8) -> (ignored: bool)
    ensures
        ignored == harmless(request_code, error_code),
{
    error_code == bad_window() || (request_code == X_SETINPUTFOCUS && error_code == bad_match())
        || (request_code == X_POLYTEXT8 && error_code == bad_drawable()) || (request_code
        == X_POLYFILLRECTANGLE && error_code == bad_drawable()) || (request_code == X_POLYSEGMENT
        && error_code == bad_drawable()) || (request_code == X_CONFIGUREWINDOW && error_code
        == bad_match()) || (request_code == X_GRABBUTTON && error_code == bad_access()) || (
    request_code == X_GRABKEY && error_code == bad_access()) || (request_code == X_COPYAREA
        && error_code == bad_drawable())
}

} // verus!
