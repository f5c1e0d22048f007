use peek::manifests::{JsonValue, ScriptEntry};
use peek::tools::{
    detect_package_manager, parse_cargo_commands, parse_compose_services, parse_makefile_targets,
    parse_package_json_scripts, scan_directory, DirSnapshot, ScanError, Tool, TrackedFile,
};

fn file(name: &str, content: Option<&str>) -> TrackedFile {
    TrackedFile { name: name.to_string(), content: content.map(|c| c.to_string()) }
}

fn object(members: &[(&str, JsonValue)]) -> JsonValue {
    JsonValue::Object(members.iter().map(|(k, v)| (k.to_string(), clone_json(v))).collect())
}

fn clone_json(v: &JsonValue) -> JsonValue {
    match v {
        JsonValue::Null => JsonValue::Null,
        JsonValue::Bool(b) => JsonValue::Bool(*b),
        JsonValue::Number => JsonValue::Number,
        JsonValue::Str(s) => JsonValue::Str(s.clone()),
        JsonValue::Array(a) => JsonValue::Array(a.iter().map(clone_json).collect()),
        JsonValue::Object(m) => {
            JsonValue::Object(m.iter().map(|(k, v)| (k.clone(), clone_json(v))).collect())
        }
    }
}

const PNPM_PACKAGE_JSON: &str = r#"{
  "name": "node-pnpm",
  "scripts": {
    "dev": "next dev --turbo",
    "build": "next build",
    "test": "vitest",
    "lint": "eslint .",
    "start": "next start"
  }
}"#;

/// The package.json of the node fixtures, as serde_json gives it (members
/// in key order).
fn pnpm_package_json() -> JsonValue {
    let s = |t: &str| JsonValue::Str(t.to_string());
    object(&[
        ("name", s("node-pnpm")),
        (
            "scripts",
            object(&[
                ("build", s("next build")),
                ("dev", s("next dev --turbo")),
                ("lint", s("eslint .")),
                ("start", s("next start")),
                ("test", s("vitest")),
            ]),
        ),
    ])
}

fn node_pnpm() -> DirSnapshot {
    DirSnapshot {
        files: vec![file("package.json", Some(PNPM_PACKAGE_JSON)), file("pnpm-lock.yaml", None)],
        package_json: Some(pnpm_package_json()),
    }
}

fn node_npm() -> DirSnapshot {
    DirSnapshot {
        files: vec![file("package.json", Some(PNPM_PACKAGE_JSON)), file("package-lock.json", None)],
        package_json: Some(pnpm_package_json()),
    }
}

const MAKEFILE: &str = ".PHONY: build test clean install

CC = gcc
CFLAGS = -O2

build: main.o
\t$(CC) -o app main.o

%.o: %.c
\t$(CC) $(CFLAGS) -c $<

test: build
\t./app --test

clean:
\trm -f app *.o

install: build
\tcp app /usr/local/bin/app
";

fn makefile_project() -> DirSnapshot {
    DirSnapshot { files: vec![file("Makefile", Some(MAKEFILE))], package_json: None }
}

const COMPOSE: &str = "version: \"3.8\"
services:
  web:
    image: nginx:latest
    ports:
      - \"80:80\"
  api:
    build: ./api
    depends_on:
      - db
  db:
    image: postgres:16
volumes:
  data:
";

fn compose_project() -> DirSnapshot {
    DirSnapshot { files: vec![file("docker-compose.yml", Some(COMPOSE))], package_json: None }
}

fn cargo_project() -> DirSnapshot {
    DirSnapshot { files: vec![file("Cargo.toml", None)], package_json: None }
}

fn nonexistent() -> DirSnapshot {
    DirSnapshot { files: vec![], package_json: None }
}

fn names(entries: &[ScriptEntry]) -> Vec<&str> {
    entries.iter().map(|e| e.name.as_str()).collect()
}

#[test]
fn test_detect_pnpm() {
    let dir = node_pnpm();
    assert_eq!(detect_package_manager(&dir), Some(Tool::Pnpm));
}

#[test]
fn test_detect_npm() {
    let dir = node_npm();
    assert_eq!(detect_package_manager(&dir), Some(Tool::Npm));
}

#[test]
fn detect_prefers_pnpm_then_yarn_then_npm_then_bun() {
    let bun_only = DirSnapshot {
        files: vec![file("package.json", Some("{}")), file("bun.lockb", None)],
        package_json: None,
    };
    assert_eq!(detect_package_manager(&bun_only), Some(Tool::Bun));
    let mut dir = node_npm();
    dir.files.push(file("bun.lock", None));
    assert_eq!(detect_package_manager(&dir), Some(Tool::Npm));
    dir.files.push(file("yarn.lock", None));
    assert_eq!(detect_package_manager(&dir), Some(Tool::Yarn));
    dir.files.push(file("pnpm-lock.yaml", None));
    assert_eq!(detect_package_manager(&dir), Some(Tool::Pnpm));
    assert_eq!(detect_package_manager(&nonexistent()), None);
    let bare = DirSnapshot { files: vec![file("package.json", Some("{}"))], package_json: None };
    assert_eq!(detect_package_manager(&bare), Some(Tool::Npm));
}

#[test]
fn test_parse_package_json_scripts() {
    let dir = node_pnpm();
    let scripts = parse_package_json_scripts(&dir).unwrap();
    assert_eq!(scripts.len(), 5);

    let names: Vec<&str> = scripts.iter().map(|s| s.name.as_str()).collect();
    assert!(names.contains(&"dev"));
    assert!(names.contains(&"build"));
    assert!(names.contains(&"test"));
    assert!(names.contains(&"lint"));
    assert!(names.contains(&"start"));

    let dev = scripts.iter().find(|s| s.name == "dev").unwrap();
    assert_eq!(dev.preview, "next dev --turbo");
}

#[test]
fn package_json_errors_and_odd_values() {
    assert_eq!(parse_package_json_scripts(&nonexistent()).unwrap_err(), ScanError::NotFound);
    let unreadable = DirSnapshot { files: vec![file("package.json", None)], package_json: None };
    assert_eq!(parse_package_json_scripts(&unreadable).unwrap_err(), ScanError::Unreadable);
    let invalid =
        DirSnapshot { files: vec![file("package.json", Some("{ not json"))], package_json: None };
    assert_eq!(parse_package_json_scripts(&invalid).unwrap_err(), ScanError::InvalidJson);
    // A script whose command is not a string gets an empty preview; a
    // `scripts` that is not an object gives nothing.
    let odd = DirSnapshot {
        files: vec![file("package.json", Some("{}"))],
        package_json: Some(object(&[(
            "scripts",
            object(&[("n", JsonValue::Number), ("s", JsonValue::Str("x".to_string()))]),
        )])),
    };
    let scripts = parse_package_json_scripts(&odd).unwrap();
    assert_eq!(names(&scripts), vec!["n", "s"]);
    assert_eq!(scripts[0].preview, "");
    assert_eq!(scripts[1].preview, "x");
    let not_object = DirSnapshot {
        files: vec![file("package.json", Some("{}"))],
        package_json: Some(object(&[("scripts", JsonValue::Array(vec![]))])),
    };
    assert!(parse_package_json_scripts(&not_object).unwrap().is_empty());
}

#[test]
fn test_parse_makefile_targets() {
    let dir = makefile_project();
    let targets = parse_makefile_targets(&dir).unwrap();

    let names: Vec<&str> = targets.iter().map(|t| t.name.as_str()).collect();
    assert!(names.contains(&"build"));
    assert!(names.contains(&"test"));
    assert!(names.contains(&"clean"));
    assert!(names.contains(&"install"));
    // Pattern rule should not be included
    assert!(!names.iter().any(|n| n.contains('%')));
}

#[test]
fn makefile_targets_in_order_without_duplicates() {
    let dir = makefile_project();
    let targets = parse_makefile_targets(&dir).unwrap();
    assert_eq!(names(&targets), vec!["build", "test", "clean", "install"]);
    let previews: Vec<&str> = targets.iter().map(|t| t.preview.as_str()).collect();
    assert_eq!(previews, vec!["$(CC) -o app main.o", "./app --test", "rm -f app *.o", "cp app /usr/local/bin/app"]);
    let text = "a b: c\r\nb:\n$(X):\nd:=1\nCC := gcc\nY ::= 2\n\tx: y\n\techo a: b\nweird: deps:\n";
    let snap = DirSnapshot { files: vec![file("makefile", Some(text))], package_json: None };
    assert_eq!(names(&parse_makefile_targets(&snap).unwrap()), vec!["a", "b", "weird"]);
    let design = DirSnapshot {
        files: vec![file("Makefile", Some("CC := gcc\nbuild:\n\techo a: b\n"))],
        package_json: None,
    };
    let v = parse_makefile_targets(&design).unwrap();
    assert_eq!(names(&v), vec!["build"]);
    assert_eq!(v[0].preview, "echo a: b");
    // A target keeps the recipe of the rule that first names it; a rule
    // without a recipe line right after it gives an empty preview.
    let text = "all: x\n\n\techo late\nx:\n\t  cc -c x.c  \nall:\n\techo again\n";
    let snap = DirSnapshot { files: vec![file("Makefile", Some(text))], package_json: None };
    let v = parse_makefile_targets(&snap).unwrap();
    let pairs: Vec<(&str, &str)> = v.iter().map(|t| (t.name.as_str(), t.preview.as_str())).collect();
    assert_eq!(pairs, vec![("all", ""), ("x", "cc -c x.c")]);
    let unreadable = DirSnapshot { files: vec![file("GNUmakefile", None)], package_json: None };
    assert_eq!(parse_makefile_targets(&unreadable).unwrap_err(), ScanError::Unreadable);
    assert!(parse_makefile_targets(&nonexistent()).unwrap().is_empty());
}

#[test]
fn makefile_is_preferred_over_other_names() {
    let snap = DirSnapshot {
        files: vec![file("GNUmakefile", Some("gnu:\n")), file("Makefile", Some("upper:\n"))],
        package_json: None,
    };
    assert_eq!(names(&parse_makefile_targets(&snap).unwrap()), vec!["upper"]);
}

#[test]
fn test_parse_compose_services() {
    let dir = compose_project();
    let services = parse_compose_services(&dir).unwrap();

    let names: Vec<&str> = services.iter().map(|s| s.name.as_str()).collect();
    assert_eq!(names.len(), 3);
    assert!(names.contains(&"web"));
    assert!(names.contains(&"api"));
    assert!(names.contains(&"db"));
}

#[test]
fn compose_services_block_rules() {
    let text = "services:\n  web:\n\tworker:\n    nested:\n  blank: \n\nx:\n  notservice:\n  services:\n  again:\n";
    let snap = DirSnapshot { files: vec![file("compose.yaml", Some(text))], package_json: None };
    assert_eq!(
        names(&parse_compose_services(&snap).unwrap()),
        vec!["web", "worker", "blank", "again"]
    );
    assert!(parse_compose_services(&nonexistent()).unwrap().is_empty());
    let unreadable = DirSnapshot { files: vec![file("compose.yml", None)], package_json: None };
    assert_eq!(parse_compose_services(&unreadable).unwrap_err(), ScanError::Unreadable);
}

#[test]
fn compose_previews_are_images() {
    let services = parse_compose_services(&compose_project()).unwrap();
    let pairs: Vec<(&str, &str)> =
        services.iter().map(|s| (s.name.as_str(), s.preview.as_str())).collect();
    assert_eq!(pairs, vec![("web", "nginx:latest"), ("api", ""), ("db", "postgres:16")]);
    let text = "services:\n  web:\n    image: nginx\n";
    let snap = DirSnapshot { files: vec![file("compose.yml", Some(text))], package_json: None };
    let v = parse_compose_services(&snap).unwrap();
    assert_eq!((v[0].name.as_str(), v[0].preview.as_str()), ("web", "nginx"));
    let text = "services:\n  a:\n    image: \"redis:7\"\n  b:\n    build: .\n  c:\n    image:   'x'  \n";
    let snap = DirSnapshot { files: vec![file("compose.yml", Some(text))], package_json: None };
    let v = parse_compose_services(&snap).unwrap();
    let pairs: Vec<(&str, &str)> = v.iter().map(|s| (s.name.as_str(), s.preview.as_str())).collect();
    assert_eq!(pairs, vec![("a", "redis:7"), ("b", ""), ("c", "x")]);
}

#[test]
fn compose_indent_counts_bytes() {
    // U+00A0 takes two bytes, so it indents like two spaces.
    let text = "services:\n\u{a0}nbsp:\n   three:\n";
    let snap = DirSnapshot { files: vec![file("compose.yml", Some(text))], package_json: None };
    assert_eq!(names(&parse_compose_services(&snap).unwrap()), Vec::<&str>::new());
    let text = "services:\n \u{a0}x:\n";
    let snap = DirSnapshot { files: vec![file("compose.yml", Some(text))], package_json: None };
    assert!(parse_compose_services(&snap).unwrap().is_empty());
    let text = "services:\n\u{85}y:\n";
    let snap = DirSnapshot { files: vec![file("compose.yml", Some(text))], package_json: None };
    assert!(parse_compose_services(&snap).unwrap().is_empty());
}

#[test]
fn test_parse_cargo_commands() {
    let dir = cargo_project();
    let commands = parse_cargo_commands(&dir).unwrap();
    assert!(!commands.is_empty());

    let names: Vec<&str> = commands.iter().map(|c| c.name.as_str()).collect();
    assert!(names.contains(&"build"));
    assert!(names.contains(&"test"));
    assert!(names.contains(&"run"));
    assert!(names.contains(&"check"));
}

#[test]
fn cargo_commands_need_cargo_toml() {
    assert!(parse_cargo_commands(&nonexistent()).unwrap().is_empty());
    let commands = parse_cargo_commands(&cargo_project()).unwrap();
    assert_eq!(commands.len(), 10);
    assert_eq!(commands[0].name, "build");
    assert_eq!(commands[0].preview, "Compile the current package");
    assert_eq!(commands[9].name, "update");
}

#[test]
fn test_scan_directory_pnpm() {
    let dir = node_pnpm();
    let results = scan_directory(&dir);

    // Scripts registered for all 4 JS package managers
    assert_eq!(results.len(), 4);
    let pnpm = results.iter().find(|r| r.tool == Tool::Pnpm).unwrap();
    assert_eq!(pnpm.entries.len(), 5);
}

#[test]
fn scan_directory_order_and_every_js_manager() {
    let mut dir = node_pnpm();
    dir.files.push(file("Makefile", Some(MAKEFILE)));
    dir.files.push(file("compose.yml", Some(COMPOSE)));
    dir.files.push(file("Cargo.toml", None));
    let results = scan_directory(&dir);
    let tools: Vec<Tool> = results.iter().map(|r| r.tool).collect();
    assert_eq!(
        tools,
        vec![
            Tool::Pnpm,
            Tool::Npm,
            Tool::Yarn,
            Tool::Bun,
            Tool::Make,
            Tool::DockerCompose,
            Tool::Cargo
        ]
    );
    for r in &results[..4] {
        assert_eq!(names(&r.entries), vec!["build", "dev", "lint", "start", "test"]);
    }
}

#[test]
fn test_scan_directory_no_tools() {
    let dir = nonexistent();
    let results = scan_directory(&dir);
    assert!(results.is_empty());
}
