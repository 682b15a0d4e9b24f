use rxl::xerror::{
    xerror, X_CONFIGUREWINDOW, X_COPYAREA, X_GRABBUTTON, X_GRABKEY, X_POLYFILLRECTANGLE,
    X_POLYSEGMENT, X_POLYTEXT8, X_SETINPUTFOCUS,
};

const BAD_REQUEST: u8 = 1;
const BAD_VALUE: u8 = 2;
const BAD_WINDOW: u8 = 3;
const BAD_MATCH: u8 = 8;
const BAD_DRAWABLE: u8 = 9;
const BAD_ACCESS: u8 = 10;

#[test]
fn a_window_that_is_gone_is_ignored_for_every_request() {
    for request in 0u8..=255 {
        assert!(xerror(request, BAD_WINDOW));
    }
}

#[test]
fn races_with_clients_are_ignored() {
    assert!(xerror(X_SETINPUTFOCUS, BAD_MATCH));
    assert!(xerror(X_POLYTEXT8, BAD_DRAWABLE));
    assert!(xerror(X_POLYFILLRECTANGLE, BAD_DRAWABLE));
    assert!(xerror(X_POLYSEGMENT, BAD_DRAWABLE));
    assert!(xerror(X_CONFIGUREWINDOW, BAD_MATCH));
    assert!(xerror(X_GRABBUTTON, BAD_ACCESS));
    assert!(xerror(X_GRABKEY, BAD_ACCESS));
    assert!(xerror(X_COPYAREA, BAD_DRAWABLE));
}

#[test]
fn request_codes_of_the_core_protocol() {
    assert_eq!(X_CONFIGUREWINDOW, 12);
    assert_eq!(X_GRABBUTTON, 28);
    assert_eq!(X_GRABKEY, 33);
    assert_eq!(X_SETINPUTFOCUS, 42);
    assert_eq!(X_COPYAREA, 62);
    assert_eq!(X_POLYSEGMENT, 66);
    assert_eq!(X_POLYFILLRECTANGLE, 70);
    assert_eq!(X_POLYTEXT8, 74);
}

#[test]
fn other_errors_are_fatal() {
    assert!(!xerror(X_SETINPUTFOCUS, BAD_ACCESS));
    assert!(!xerror(X_SETINPUTFOCUS, BAD_DRAWABLE));
    assert!(!xerror(X_GRABKEY, BAD_MATCH));
    assert!(!xerror(X_COPYAREA, BAD_MATCH));
    assert!(!xerror(X_CONFIGUREWINDOW, BAD_VALUE));
    assert!(!xerror(0, BAD_REQUEST));
    assert!(!xerror(X_POLYTEXT8, BAD_ACCESS));
}

#[test]
fn exactly_the_listed_pairs_are_ignored() {
    let mut ignored = 0;
    for request in 0u8..=255 {
        for error in 0u8..=255 {
            if xerror(request, error) {
                ignored += 1;
            }
        }
    }
    assert_eq!(ignored, 256 + 8);
}
