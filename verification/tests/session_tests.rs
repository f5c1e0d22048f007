use peek::session::{classify_key, Effect, KeyAction, Session};
use peek::tui::refresh_suggestions;

#[test]
fn keys() {
    assert_eq!(classify_key(&[0x1b, b'[', b'A', b'x']), (KeyAction::Up, 3));
    assert_eq!(classify_key(&[0x1b, b'[', b'B']), (KeyAction::Down, 3));
    assert_eq!(classify_key(&[0x09]), (KeyAction::Accept, 1));
    assert_eq!(classify_key(&[0x1b]), (KeyAction::Dismiss, 1));
    assert_eq!(classify_key(&[0x1b, b'x']), (KeyAction::Other, 1));
    assert_eq!(classify_key(&[0x0d, b'a']), (KeyAction::AcceptAndRun, 1));
    assert_eq!(classify_key(&[b'a']), (KeyAction::Other, 1));
}

#[test]
fn typing_asks_for_suggestions_then_tab_accepts() {
    let mut s = Session::new();
    let effects = s.handle_hidden_input(b"pnpm d");
    assert_eq!(
        effects,
        vec![Effect::Shell(b"pnpm d".to_vec()), Effect::Refresh("pnpm d".to_string())]
    );
    let out = refresh_suggestions(
        &mut s.dropdown,
        vec![("dev".to_string(), "next dev".to_string()), ("docs".to_string(), String::new())],
    );
    assert!(out.ends_with("\x1b[4A"));
    assert!(s.dropdown.is_visible());

    let (n, effects) = s.handle_visible_key(&[0x1b, b'[', b'B']);
    assert_eq!(n, 3);
    assert_eq!(effects.len(), 1);
    assert_eq!(s.dropdown.selected_name(), Some("docs"));

    let (n, effects) = s.handle_visible_key(&[0x09]);
    assert_eq!(n, 1);
    let clear = format!("{}\x1b[4A", "\x1b[1B\r\x1b[2K".repeat(4));
    assert_eq!(effects, vec![Effect::Screen(clear), Effect::Shell(vec![0x08, b'd', b'o', b'c', b's'])]);
    assert!(!s.dropdown.is_visible());
    assert_eq!(s.tracker.current_line(), "pnpm docs");
}

#[test]
fn other_keys_and_enter() {
    let mut s = Session::new();
    s.handle_hidden_input(b"make b");
    refresh_suggestions(&mut s.dropdown, vec![("build".to_string(), String::new())]);
    let (_, effects) = s.handle_visible_key(b"u");
    assert_eq!(effects, vec![Effect::Shell(b"u".to_vec()), Effect::Refresh("make bu".to_string())]);
    // Enter runs the selected item.
    let (_, effects) = s.handle_visible_key(&[0x0d]);
    assert_eq!(effects.len(), 2);
    assert_eq!(effects[1], Effect::Shell(vec![0x08, 0x08, b'b', b'u', b'i', b'l', b'd', 0x0d]));
    assert_eq!(s.tracker.current_line(), "");
    // Enter without items just runs the line.
    let (_, effects) = s.handle_visible_key(&[0x0d]);
    assert_eq!(effects, vec![Effect::Shell(vec![0x0d])]);
    // A key that leaves no tool on the line hides the dropdown.
    s.handle_hidden_input(b"make ");
    refresh_suggestions(&mut s.dropdown, vec![("build".to_string(), String::new())]);
    let (_, effects) = s.handle_visible_key(&[0x7f]);
    assert_eq!(effects.len(), 2);
    assert!(!s.dropdown.is_visible());
    let (_, effects) = s.handle_visible_key(&[0x1b]);
    assert_eq!(effects.len(), 1);
    let effects = s.handle_hidden_input(b"ls");
    assert_eq!(effects, vec![Effect::Shell(b"ls".to_vec())]);
}
