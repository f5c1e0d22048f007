use peek::config::{data_dir_in, log_dir_in, pid_path_in, socket_path_in, ToolsConfig, Trigger};
use peek::fuzzy::FuzzyMatch;
use peek::manifests::ScriptEntry;
use peek::protocol::uptime_parts;
use peek::suggest::{rank_entries, route_suggest, scan_enabled_tools, take_matches, SuggestRoute};
use peek::tools::{DirSnapshot, Tool, ToolScripts, TrackedFile};

fn entry(name: &str, preview: &str) -> ScriptEntry {
    ScriptEntry { name: name.to_string(), preview: preview.to_string() }
}

#[test]
fn routes() {
    let mut cfg = ToolsConfig::default();
    assert_eq!(route_suggest("echo x", &cfg), SuggestRoute::NoTool);
    assert_eq!(route_suggest("make b", &cfg), SuggestRoute::Lookup(Tool::Make, "b".to_string()));
    cfg.make = false;
    assert!(!cfg.is_tool_enabled(Tool::Make));
    assert!(cfg.is_tool_enabled(Tool::Cargo));
    assert_eq!(route_suggest("make b", &cfg), SuggestRoute::Disabled(Tool::Make));
    assert_eq!(Trigger::default(), Trigger::Auto);
}

#[test]
fn ranking_entries() {
    let all = vec![
        ToolScripts { tool: Tool::Make, entries: vec![entry("build", ""), entry("bench", "")] },
        ToolScripts { tool: Tool::Cargo, entries: vec![entry("test", "Run the tests")] },
    ];
    assert!(rank_entries(&all, Tool::Pnpm, "").is_none());
    let r = rank_entries(&all, Tool::Make, "").unwrap();
    assert_eq!(r.len(), 2);
    assert_eq!(r[0].name, "build");
    assert_eq!(r[1].name, "bench");
    assert_eq!(r[0].fuzzy_score, 0);
    let r = rank_entries(&all, Tool::Cargo, "tst").unwrap();
    assert_eq!(r.len(), 1);
    assert_eq!(r[0].preview, "Run the tests");
    assert!(r[0].fuzzy_score > 0);
    assert!(rank_entries(&all, Tool::Make, "zzz").unwrap().is_empty());
    let t = take_matches(
        &vec![entry("a", "x"), entry("b", "y")],
        &vec![FuzzyMatch { index: 1, score: 7 }, FuzzyMatch { index: 0, score: 3 }],
    );
    assert_eq!(t.len(), 2);
    assert_eq!((t[0].name.as_str(), t[0].fuzzy_score), ("b", 7));
}

#[test]
fn ranking_keeps_entries_past_the_shown_count() {
    let entries: Vec<ScriptEntry> = (0..10).map(|i| entry(&format!("e{i}"), "")).collect();
    let all = vec![ToolScripts { tool: Tool::Pnpm, entries }];
    let r = rank_entries(&all, Tool::Pnpm, "").unwrap();
    assert_eq!(r.len(), 10);
    assert_eq!(r[9].name, "e9");
}

#[test]
fn scanning_keeps_enabled_tools() {
    let snap = DirSnapshot {
        files: vec![
            TrackedFile { name: "Makefile".to_string(), content: Some("all:\n".to_string()) },
            TrackedFile { name: "Cargo.toml".to_string(), content: None },
        ],
        package_json: None,
    };
    let mut cfg = ToolsConfig::default();
    assert_eq!(scan_enabled_tools(&snap, &cfg).len(), 2);
    cfg.cargo = false;
    let r = scan_enabled_tools(&snap, &cfg);
    assert_eq!(r.len(), 1);
    assert_eq!(r[0].tool, Tool::Make);
}

#[test]
fn paths_and_uptime() {
    assert_eq!(data_dir_in(b"/home/u"), b"/home/u/.peek".to_vec());
    assert_eq!(socket_path_in(b"/home/u"), b"/home/u/.peek/peek.sock".to_vec());
    assert_eq!(pid_path_in(b"/home/u/"), b"/home/u/.peek/peekd.pid".to_vec());
    assert_eq!(log_dir_in(b"/"), b"/.peek/logs".to_vec());
    // A home directory that is not UTF-8 is kept byte for byte.
    assert_eq!(socket_path_in(b"/home/\xff"), b"/home/\xff/.peek/peek.sock".to_vec());
    assert_eq!(uptime_parts(3725), (1, 2, 5));
    assert_eq!(uptime_parts(59), (0, 0, 59));
}
