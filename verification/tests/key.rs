use hux_core::key::{KeyEvent, K_ALT_MASK, K_CONTROL_MASK, K_SHIFT_MASK};

#[test]
fn repr_matches_known_librime_vectors() {
    assert_eq!(KeyEvent::new(0x61, 0).repr(), "a");
    assert_eq!(KeyEvent::new(0x41, 0).repr(), "A");
    assert_eq!(KeyEvent::new(0x3b, 0).repr(), "semicolon");
    assert_eq!(KeyEvent::new(0x20, 0).repr(), "space");
    assert_eq!(KeyEvent::new(0xfe20, 0).repr(), "ISO_Left_Tab");
    assert_eq!(KeyEvent::new(0xff0d, 0).repr(), "Return");
    assert_eq!(KeyEvent::new(0xff08, 0).repr(), "BackSpace");
    assert_eq!(KeyEvent::new(0xff51, 0).repr(), "Left");
    assert_eq!(KeyEvent::new(0x61, K_SHIFT_MASK).repr(), "Shift+a");
    assert_eq!(KeyEvent::new(0xff09, K_SHIFT_MASK).repr(), "Shift+Tab");
    assert_eq!(KeyEvent::new(0x1234, 0).repr(), "0x1234");
    assert_eq!(KeyEvent::new(0x123456, 0).repr(), "0x123456");
    assert_eq!(KeyEvent::new(0x1234567, 0).repr(), "(unknown)");
}

#[test]
fn parse_round_trips() {
    assert_eq!(KeyEvent::from_repr("a"), Some(KeyEvent::new(0x61, 0)));
    assert_eq!(
        KeyEvent::from_repr("Shift+Tab"),
        Some(KeyEvent::new(0xff09, K_SHIFT_MASK))
    );
    assert_eq!(
        KeyEvent::from_repr("Control+Alt+Delete"),
        Some(KeyEvent::new(0xffff, K_CONTROL_MASK | K_ALT_MASK))
    );
    assert_eq!(KeyEvent::from_repr("nope"), None);
    assert_eq!(KeyEvent::from_repr("Shift+nope"), None);
    assert_eq!(KeyEvent::from_repr(""), None);
}
