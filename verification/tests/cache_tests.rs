use peek::cache::{
    collect_mtimes, join_path, path_key_of, tracked_files_in, tracked_paths, DirectoryCache,
    FileStamp, PathStamp,
};
use peek::manifests::ScriptEntry;
use peek::tools::{Tool, ToolScripts};

fn stamp(path: &str, stamp: FileStamp) -> PathStamp {
    PathStamp { path: path.to_string(), stamp }
}

fn tools() -> Vec<ToolScripts> {
    vec![ToolScripts {
        tool: Tool::Make,
        entries: vec![ScriptEntry { name: "build".to_string(), preview: String::new() }],
    }]
}

#[test]
fn read_after_write_and_staleness() {
    let mut cache = DirectoryCache::new();
    let obs = vec![
        stamp("/p/package.json", FileStamp::Modified(5)),
        stamp("/p/Makefile", FileStamp::NoModTime),
        stamp("/p/Cargo.toml", FileStamp::Missing),
    ];
    assert!(cache.get("/p", &obs).is_none());
    cache.insert("/p".to_string(), tools(), &obs);
    let got = cache.get("/p", &obs).unwrap();
    assert_eq!(got.len(), 1);
    assert_eq!(got[0].tool, Tool::Make);
    assert_eq!(got[0].entries[0].name, "build");

    let with = |pkg: FileStamp, make: FileStamp, cargo: FileStamp| {
        vec![stamp("/p/package.json", pkg), stamp("/p/Makefile", make), stamp("/p/Cargo.toml", cargo)]
    };
    // A changed modification time makes the entry stale.
    let changed = with(FileStamp::Modified(6), FileStamp::NoModTime, FileStamp::Missing);
    assert!(cache.get("/p", &changed).is_none());
    // A deleted file makes it stale.
    assert!(cache.get("/p", &vec![]).is_none());
    let deleted = with(FileStamp::Modified(5), FileStamp::Missing, FileStamp::Missing);
    assert!(cache.get("/p", &deleted).is_none());
    // A tracked file that appears makes it stale.
    let appeared = with(FileStamp::Modified(5), FileStamp::NoModTime, FileStamp::Modified(1));
    assert!(cache.get("/p", &appeared).is_none());
    // A time that can no longer be read does not, nor one that can now be.
    let unreadable = with(FileStamp::NoModTime, FileStamp::Modified(9), FileStamp::Missing);
    assert!(cache.get("/p", &unreadable).is_some());

    cache.insert("/q".to_string(), vec![], &vec![]);
    let mut dirs = cache.cached_dirs();
    dirs.sort();
    assert_eq!(dirs, vec!["/p".to_string(), "/q".to_string()]);

    cache.invalidate("/p");
    assert!(cache.get("/p", &obs).is_none());
    assert!(cache.get("/q", &vec![]).is_some());
    assert_eq!(cache.cached_dirs(), vec!["/q".to_string()]);

    // Inserting again replaces the entry.
    cache.insert("/q".to_string(), tools(), &vec![]);
    assert_eq!(cache.get("/q", &vec![]).unwrap().len(), 1);
    assert_eq!(cache.cached_dirs().len(), 1);
}

#[test]
fn new_makefile_makes_the_entry_stale() {
    let mut cache = DirectoryCache::new();
    let before: Vec<PathStamp> = tracked_paths("/d")
        .into_iter()
        .map(|p| stamp(&p, if p.ends_with("package.json") { FileStamp::Modified(1) } else { FileStamp::Missing }))
        .collect();
    cache.insert("/d".to_string(), tools(), &before);
    assert!(cache.get("/d", &before).is_some());
    let after: Vec<PathStamp> = before
        .iter()
        .map(|o| if o.path == "/d/Makefile" { stamp(&o.path, FileStamp::Modified(2)) } else { o.clone() })
        .collect();
    assert!(cache.get("/d", &after).is_none());
}

#[test]
fn paths_and_mtimes() {
    assert_eq!(join_path("/p", "x"), "/p/x");
    assert_eq!(join_path("/p/", "x"), "/p/x");
    assert_eq!(join_path("", "x"), "x");
    let paths = tracked_paths("/p");
    assert_eq!(paths.len(), 14);
    assert_eq!(paths[0], "/p/package.json");
    assert_eq!(paths[13], "/p/Cargo.toml");
    let obs = vec![
        stamp("/p/package.json", FileStamp::Modified(-3)),
        stamp("/p/Makefile", FileStamp::NoModTime),
        stamp("/p/yarn.lock", FileStamp::Missing),
    ];
    assert_eq!(
        collect_mtimes(&obs),
        vec![
            ("/p/package.json".to_string(), FileStamp::Modified(-3)),
            ("/p/Makefile".to_string(), FileStamp::NoModTime),
            ("/p/yarn.lock".to_string(), FileStamp::Missing),
        ]
    );
    assert_eq!(
        tracked_files_in("/p", &obs),
        vec!["/p/package.json".to_string(), "/p/Makefile".to_string()]
    );
}

#[test]
fn keys_compare_like_paths() {
    assert_eq!(path_key_of("/x/"), "/x");
    assert_eq!(path_key_of("/x//y/./z"), "/x/y/z");
    assert_eq!(path_key_of("./a/"), "./a");
    assert_eq!(path_key_of("a/."), "a");
    assert_eq!(path_key_of("/"), "/");
    assert_eq!(path_key_of(""), "");
    assert_eq!(path_key_of("../a/.."), "../a/..");
    let mut cache = DirectoryCache::new();
    cache.insert("/x/".to_string(), tools(), &vec![]);
    assert!(cache.get("/x", &vec![]).is_some());
    assert_eq!(cache.cached_dirs(), vec!["/x".to_string()]);
    cache.insert("/x".to_string(), vec![], &vec![]);
    assert_eq!(cache.cached_dirs().len(), 1);
    cache.invalidate("//x/.");
    assert!(cache.cached_dirs().is_empty());
}
