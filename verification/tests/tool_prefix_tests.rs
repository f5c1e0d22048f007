use peek::tools::{match_tool_prefix, Tool};

#[test]
fn test_match_tool_prefix() {
    assert_eq!(
        match_tool_prefix("pnpm dev").map(|(t, f)| (t, f)),
        Some((Tool::Pnpm, "dev".to_string()))
    );
    assert_eq!(
        match_tool_prefix("pnpm run build").map(|(t, f)| (t, f)),
        Some((Tool::Pnpm, "build".to_string()))
    );
    assert_eq!(
        match_tool_prefix("npm run test").map(|(t, f)| (t, f)),
        Some((Tool::Npm, "test".to_string()))
    );
    assert_eq!(
        match_tool_prefix("make ").map(|(t, f)| (t, f)),
        Some((Tool::Make, "".to_string()))
    );
    assert_eq!(
        match_tool_prefix("docker compose up").map(|(t, f)| (t, f)),
        Some((Tool::DockerCompose, "up".to_string()))
    );
    assert_eq!(
        match_tool_prefix("docker-compose up").map(|(t, f)| (t, f)),
        Some((Tool::DockerCompose, "up".to_string()))
    );
    assert_eq!(
        match_tool_prefix("cargo t").map(|(t, f)| (t, f)),
        Some((Tool::Cargo, "t".to_string()))
    );
    assert!(match_tool_prefix("echo hello").is_none());
}

#[test]
fn longest_prefix_wins_and_filter_keeps_unicode() {
    assert_eq!(match_tool_prefix("yarn run dév"), Some((Tool::Yarn, "dév".to_string())));
    assert_eq!(match_tool_prefix("yarn dev"), Some((Tool::Yarn, "dev".to_string())));
    assert_eq!(match_tool_prefix("bun run x"), Some((Tool::Bun, "x".to_string())));
    assert_eq!(match_tool_prefix("bun x"), None);
    assert_eq!(match_tool_prefix("pnpm"), None);
    assert_eq!(match_tool_prefix(""), None);
}

#[test]
fn tool_names_and_prefixes() {
    assert_eq!(Tool::DockerCompose.name(), "docker compose");
    assert_eq!(Tool::Npm.command_prefix(), "npm run ");
    assert_eq!(Tool::Bun.command_prefix(), "bun run ");
    assert_eq!(Tool::Pnpm.trigger_prefixes(), &["pnpm ", "pnpm run "]);
    assert_eq!(Tool::DockerCompose.trigger_prefixes(), &["docker compose ", "docker-compose "]);
}

#[test]
fn command_prefix_names_its_tool() {
    let all = [
        Tool::Pnpm,
        Tool::Npm,
        Tool::Yarn,
        Tool::Bun,
        Tool::Make,
        Tool::DockerCompose,
        Tool::Cargo,
    ];
    for t in all {
        assert_eq!(t.trigger_prefixes()[0], t.command_prefix());
        assert_eq!(match_tool_prefix(t.command_prefix()), Some((t, String::new())));
    }
}
