use peek::line_tracker::LineTracker;

#[test]
fn test_basic_typing() {
    let mut tracker = LineTracker::new();
    tracker.feed(b"pnpm dev");
    assert_eq!(tracker.current_line(), "pnpm dev");
}

#[test]
fn test_backspace() {
    let mut tracker = LineTracker::new();
    tracker.feed(b"pnpm de");
    tracker.feed(&[0x7f]); // backspace
    assert_eq!(tracker.current_line(), "pnpm d");
}

#[test]
fn test_enter_resets() {
    let mut tracker = LineTracker::new();
    tracker.feed(b"pnpm dev");
    tracker.feed(&[0x0d]); // enter
    assert_eq!(tracker.current_line(), "");
}

#[test]
fn test_filter_text() {
    let mut tracker = LineTracker::new();
    tracker.feed(b"pnpm dv");
    assert_eq!(tracker.filter_text(), "dv");
}

#[test]
fn control_keys() {
    let mut t = LineTracker::new();
    t.feed(b"make build  ");
    t.feed(&[0x17]); // Ctrl-W
    assert_eq!(t.current_line(), "make ");
    t.feed(b"x");
    t.feed(&[0x15]); // Ctrl-U
    assert_eq!(t.current_line(), "");
    t.feed(b"ab");
    t.feed(&[0x1b, 0x01, 0x08]); // escape and other control bytes ignored, then backspace
    assert_eq!(t.current_line(), "a");
    t.feed(&[0x17]);
    assert_eq!(t.current_line(), "");
    t.feed(&[0x08]);
    assert_eq!(t.current_line(), "");
    assert_eq!(t.filter_text(), "");
}

#[test]
fn replace_filter_keeps_the_matched_prefix() {
    let mut t = LineTracker::new();
    t.feed(b"pnpm run bu");
    assert_eq!(t.filter_text(), "bu");
    t.replace_filter("build");
    assert_eq!(t.current_line(), "pnpm run build");
    assert_eq!(t.filter_text(), "build");
    let mut u = LineTracker::new();
    u.feed(b"echo hi");
    u.replace_filter("x");
    assert_eq!(u.current_line(), "echo hi");
    let mut v = LineTracker::new();
    v.feed(b"cargo t");
    v.replace_filter("tést");
    assert_eq!(v.current_line(), "cargo tést");
    v.feed(&[0x7f]);
    assert_eq!(v.current_line(), "cargo tés");
}

#[test]
fn typing_keeps_the_line_printable() {
    let mut t = LineTracker::new();
    t.feed(b"make \x1b[A\x01b\xc3\xa9u\x09ild \x17x");
    let line = t.current_line();
    assert!(line.chars().all(|c| (' '..='~').contains(&c)));
    assert_eq!(line, "make x");
}
