use peek::dropdown::Dropdown;
use peek::tui::{truncate, TuiDropdown};

fn items(v: &[(&str, &str)]) -> Vec<(String, String)> {
    v.iter().map(|(a, b)| (a.to_string(), b.to_string())).collect()
}

fn tui_border() -> String {
    format!("\x1b[1B\r\x1b[2K \x1b[90m+{}+\x1b[0m", "-".repeat(51))
}

#[test]
fn truncate_by_characters() {
    assert_eq!(truncate("dev", 20), "dev");
    assert_eq!(truncate("abcdef", 4), "abc…");
    assert_eq!(truncate("ééééé", 4), "ééé…");
    assert_eq!(truncate("ab", 0), "…");
}

#[test]
fn tui_render_and_clear() {
    let mut d = TuiDropdown::new();
    assert_eq!(d.render(), "");
    assert_eq!(d.clear(), "");
    d.update(items(&[("dev", "next dev"), ("build", "next build")]));
    assert!(d.is_visible());
    let out = d.render();
    let expected = format!(
        "{}\x1b[1B\r\x1b[2K \x1b[90m|\x1b[0m\x1b[7m {:20} {:>28} \x1b[0m\x1b[90m|\x1b[0m\x1b[1B\r\x1b[2K \x1b[90m|\x1b[0m {:20} \x1b[2m{:>28}\x1b[0m \x1b[90m|\x1b[0m{}\x1b[4A",
        tui_border(),
        "dev",
        "next dev",
        "build",
        "next build",
        tui_border()
    );
    assert_eq!(out, expected);
    assert_eq!(d.clear(), format!("{}\x1b[4A", "\x1b[1B\r\x1b[2K".repeat(4)));
    assert_eq!(d.clear(), "");
}

#[test]
fn tui_selection_scrolls_over_all_items() {
    let mut d = TuiDropdown::new();
    let many: Vec<(String, String)> =
        (0..10).map(|i| (format!("s{i}"), String::new())).collect();
    d.update(many);
    assert_eq!(d.selected_name(), Some("s0"));
    d.move_up();
    assert_eq!(d.selected_name(), Some("s9"));
    let out = d.render();
    assert!(out.contains("s9 "));
    assert!(out.contains("s2 "));
    assert!(!out.contains("s1 "));
    assert!(out.ends_with("\x1b[10A"));
    d.move_down();
    assert_eq!(d.selected_name(), Some("s0"));
    for _ in 0..7 {
        d.move_down();
    }
    assert_eq!(d.selected_name(), Some("s7"));
    d.move_down();
    assert_eq!(d.selected_name(), Some("s8"));
    d.dismiss();
    assert!(!d.is_visible());
    assert_eq!(d.selected_name(), None);
    d.update(vec![]);
    assert!(!d.is_visible());
}

#[test]
fn dropdown_render_and_clear() {
    let mut d = Dropdown::new();
    d.update(items(&[("dev", "next dev --turbo"), ("a-very-long-script-name-here", "short")]));
    let out = d.render();
    let border = "─".repeat(52);
    let expected = format!(
        "\x1b7\n\x1b[2K\x1b[90m┌{border}┐\x1b[0m\n\
         \x1b[2K\x1b[90m│\x1b[0m \x1b[7;1m {:<22}\x1b[22;2m{:>26} \x1b[0m\x1b[90m│\x1b[0m\n\
         \x1b[2K\x1b[90m│\x1b[0m  {:<22}\x1b[2m{:>26}\x1b[0m \x1b[90m│\x1b[0m\n\
         \x1b[2K\x1b[90m└{border}┘\x1b[0m\x1b8",
        "dev",
        "next dev --turbo",
        "a-very-long-script-...",
        "short"
    );
    assert_eq!(out, expected);
    assert_eq!(d.clear(), format!("\x1b7{}\x1b[4A\x1b8", "\n\x1b[2K".repeat(4)));
    assert_eq!(d.clear(), "");
}

#[test]
fn dropdown_selection_wraps_over_all_items() {
    let mut d = Dropdown::new();
    assert_eq!(d.selected_name(), None);
    d.move_up();
    let many: Vec<(String, String)> =
        (0..10).map(|i| (format!("s{i}"), String::new())).collect();
    d.update(many);
    d.move_up();
    assert_eq!(d.selected_name(), Some("s9"));
    let out = d.render();
    // The window scrolls so that the selected item is in view.
    assert!(out.contains("s9"));
    assert!(!out.contains("s1 "));
    d.move_down();
    assert_eq!(d.selected_name(), Some("s0"));
    d.dismiss();
    assert!(!d.is_visible());
}

#[test]
fn shell_arguments() {
    assert_eq!(peek::launch::shell_args("/bin/zsh"), vec!["/bin/zsh".to_string(), "-l".to_string()]);
    let fish = peek::launch::shell_args("/usr/bin/fish");
    assert_eq!(fish.len(), 3);
    assert_eq!(fish[1], "-C");
    assert!(fish[2].starts_with("complete -e -c pnpm; complete -c pnpm -f; "));
    assert!(fish[2].ends_with("complete -e -c cargo; complete -c cargo -f"));
    assert_eq!(peek::launch::shell_args("fis").len(), 2);
}
