use sprocket::codex_hooks::{codex_hook_groups, generated_group, hook_marker, shell_quote};
use sprocket::guard::{git_subcommand, should_block_git_command};
use sprocket::payload::{
    command_text, cwd, explicit_session_id, find_first_string, get, group_contains_marker, merge_hooks_json,
    session_id, turn_id, HooksJsonError, JsonValue,
};
use sprocket::visible_snapshot::{sanitize_identifier, turn_id_from_payload};

fn s(v: &str) -> JsonValue {
    JsonValue::Str(v.to_string())
}

fn obj(members: Vec<(&str, JsonValue)>) -> JsonValue {
    JsonValue::Object(members.into_iter().map(|(k, v)| (k.to_string(), v)).collect())
}

fn arr(items: Vec<JsonValue>) -> JsonValue {
    JsonValue::Array(items)
}

fn items(v: &JsonValue) -> &Vec<JsonValue> {
    match v {
        JsonValue::Array(items) => items,
        other => panic!("not an array: {:?}", other),
    }
}

fn text(v: Option<&JsonValue>) -> Option<&str> {
    match v {
        Some(JsonValue::Str(s)) => Some(s.as_str()),
        _ => None,
    }
}

fn command_group(command: &str) -> JsonValue {
    obj(vec![("hooks", arr(vec![obj(vec![("command", s(command))])]))])
}

#[test]
fn hooks_merge_replaces_only_sprocket_groups() {
    let existing = obj(vec![(
        "hooks",
        obj(vec![(
            "Stop",
            arr(vec![command_group("other"), command_group("bin --sprocket-managed hook codex checkpoint")]),
        )]),
    )]);
    let merged = merge_hooks_json(
        Some(existing),
        vec![("Stop".to_string(), command_group("new --sprocket-managed"))],
        "--sprocket-managed",
    )
    .unwrap();
    let hooks = get(&merged, "hooks").unwrap();
    let stop = items(get(hooks, "Stop").unwrap());
    assert_eq!(stop.len(), 2);
    assert!(group_contains_marker(&stop[1], "--sprocket-managed"));
    let first_hooks = items(get(&stop[0], "hooks").unwrap());
    assert_eq!(text(get(&first_hooks[0], "command")), Some("other"));
}

#[test]
fn hooks_merge_into_nothing_creates_the_events() {
    let merged = merge_hooks_json(None, codex_hook_groups("/usr/bin/sprocket"), hook_marker()).unwrap();
    let hooks = get(&merged, "hooks").unwrap();
    for event in ["SessionStart", "UserPromptSubmit", "PreToolUse", "Stop"] {
        let groups = items(get(hooks, event).unwrap());
        assert_eq!(groups.len(), 1, "{event}");
        assert!(group_contains_marker(&groups[0], hook_marker()));
    }
    let again = merge_hooks_json(Some(merged), codex_hook_groups("/usr/bin/sprocket"), hook_marker()).unwrap();
    let stop = items(get(get(&again, "hooks").unwrap(), "Stop").unwrap());
    assert_eq!(stop.len(), 1);
}

#[test]
fn hooks_merge_refuses_malformed_files() {
    let groups = || vec![("Stop".to_string(), command_group("x --sprocket-managed"))];
    assert!(matches!(
        merge_hooks_json(Some(arr(vec![])), groups(), "--sprocket-managed"),
        Err(HooksJsonError::RootNotObject)
    ));
    assert!(matches!(
        merge_hooks_json(Some(obj(vec![("hooks", s("x"))])), groups(), "--sprocket-managed"),
        Err(HooksJsonError::HooksNotObject)
    ));
    assert!(matches!(
        merge_hooks_json(Some(obj(vec![("hooks", obj(vec![("Stop", s("x"))]))])), groups(), "--sprocket-managed"),
        Err(HooksJsonError::EventNotArray)
    ));
}

#[test]
fn generated_groups_carry_the_marker_and_checkpoint_settings() {
    assert_eq!(hook_marker(), "--sprocket-managed");
    let g = generated_group("checkpoint", "/opt/bin/sprocket", None);
    let hook = &items(get(&g, "hooks").unwrap())[0];
    assert_eq!(text(get(hook, "type")), Some("command"));
    assert_eq!(
        text(get(hook, "command")),
        Some("'/opt/bin/sprocket' --sprocket-managed hook codex checkpoint")
    );
    assert!(matches!(get(hook, "timeout"), Some(JsonValue::Number(n)) if n == "120"));
    assert_eq!(text(get(hook, "statusMessage")), Some("Evaluating Sprocket checkpoint state..."));
    assert!(get(&g, "matcher").is_none());

    let p = generated_group("pre-tool-use", "/opt/bin/sprocket", Some("Bash"));
    assert_eq!(text(get(&p, "matcher")), Some("Bash"));
    let hook = &items(get(&p, "hooks").unwrap())[0];
    assert!(get(hook, "timeout").is_none());
}

#[test]
fn codex_hook_groups_cover_the_four_events() {
    let groups = codex_hook_groups("/b");
    let names: Vec<&str> = groups.iter().map(|(n, _)| n.as_str()).collect();
    assert_eq!(names, vec!["SessionStart", "UserPromptSubmit", "PreToolUse", "Stop"]);
    let hook = &items(get(&groups[1].1, "hooks").unwrap())[0];
    assert_eq!(text(get(hook, "command")), Some("'/b' --sprocket-managed hook codex baseline"));
    assert_eq!(text(get(&groups[2].1, "matcher")), Some("Bash"));
}

#[test]
fn shell_quote_escapes_single_quotes() {
    assert_eq!(shell_quote("/usr/bin/x"), "'/usr/bin/x'");
    assert_eq!(shell_quote("it's"), "'it'\"'\"'s'");
}

#[test]
fn group_contains_marker_looks_at_commands() {
    assert!(group_contains_marker(&command_group("a --sprocket-managed b"), "--sprocket-managed"));
    assert!(!group_contains_marker(&command_group("other"), "--sprocket-managed"));
    assert!(!group_contains_marker(&s("--sprocket-managed"), "--sprocket-managed"));
}

#[test]
fn payload_variants_are_accepted() {
    let session_payload = obj(vec![("workingDirectory", s("/repo")), ("sessionId", s("camel-session"))]);
    assert_eq!(cwd(&session_payload).as_deref(), Some("/repo"));
    assert_eq!(session_id(&session_payload), "camel-session");

    let baseline_payload = obj(vec![
        ("working_dir", s("/repo")),
        ("sessionId", s("camel-session")),
        ("requestId", s("camel-turn")),
    ]);
    assert_eq!(cwd(&baseline_payload).as_deref(), Some("/repo"));
    assert_eq!(explicit_session_id(&baseline_payload), Some("camel-session"));
    assert_eq!(turn_id(&baseline_payload), "camel-turn");

    let pretool_payload = obj(vec![
        ("workingDirectory", s("/repo")),
        ("toolInput", obj(vec![("command", s("git reset --hard HEAD"))])),
    ]);
    let command = command_text(&pretool_payload);
    assert_eq!(command.as_deref(), Some("git reset --hard HEAD"));
    assert!(should_block_git_command(command.as_deref()));
}

#[test]
fn payload_defaults_when_ids_are_missing() {
    let empty = obj(vec![]);
    assert_eq!(session_id(&empty), "session-current");
    assert_eq!(turn_id(&empty), "turn-current");
    assert_eq!(cwd(&empty), None);
    assert_eq!(command_text(&empty), None);
}

#[test]
fn payload_prefers_keys_in_order() {
    let p = obj(vec![("cwd", s("/a")), ("working_dir", s("/b")), ("turnId", s("t2")), ("turn_id", s("t1"))]);
    assert_eq!(cwd(&p).as_deref(), Some("/a"));
    assert_eq!(turn_id(&p), "t1");
    assert_eq!(find_first_string(&p, &["missing", "working_dir"]), Some("/b"));
}

#[test]
fn command_text_prefers_nested_command_then_cmd() {
    let p = obj(vec![("input", obj(vec![("cmd", s("git status"))])), ("tool_input", obj(vec![("command", s("ls"))]))]);
    assert_eq!(command_text(&p).as_deref(), Some("ls"));
    let q = obj(vec![("input", obj(vec![("cmd", s("git status"))]))]);
    assert_eq!(command_text(&q).as_deref(), Some("git status"));
}

#[test]
fn prettool_guard_blocks_commit_but_not_status() {
    assert!(should_block_git_command(Some("git commit -m hi")));
    assert!(should_block_git_command(Some("git reset --hard HEAD")));
    assert!(!should_block_git_command(Some("git status --short")));
    assert!(should_block_git_command(Some("git checkout feature")));
}

#[test]
fn guard_skips_git_options_and_ignores_other_programs() {
    assert!(should_block_git_command(Some("git -C /repo commit -m x")));
    assert!(should_block_git_command(Some("git -c user.name=x push")));
    assert!(!should_block_git_command(Some("echo git commit")));
    assert!(!should_block_git_command(Some("/usr/bin/git commit")));
    assert!(!should_block_git_command(Some("git log")));
    assert!(!should_block_git_command(Some("git commit 'unterminated")));
    assert!(!should_block_git_command(None));
    let argv: Vec<String> = vec!["git".into(), "--git-dir".into(), ".git".into(), "stash".into()];
    assert_eq!(git_subcommand(&argv), Some("stash"));
}

#[test]
fn pre_tool_use_blocks_git_commit_but_not_status() {
    let blocked = sprocket::visible_snapshot::should_block_git_command(Some("git commit -m test"));
    let allowed = sprocket::visible_snapshot::should_block_git_command(Some("git status --short"));
    assert!(blocked);
    assert!(!allowed);
}

#[test]
fn visible_guard_blocks_only_hard_resets() {
    assert!(sprocket::visible_snapshot::should_block_git_command(Some("git reset --hard HEAD")));
    assert!(!sprocket::visible_snapshot::should_block_git_command(Some("git reset HEAD~1")));
    assert!(sprocket::visible_snapshot::should_block_git_command(Some("git push origin main")));
}

#[test]
fn turn_ids_are_sanitized() {
    assert_eq!(sanitize_identifier("turn/../$ weird"), "turn_..___weird");
    assert_eq!(sanitize_identifier("..__"), "current");
    assert_eq!(sanitize_identifier("-x-"), "x");
    assert_eq!(sanitize_identifier(".."), "current");
    for raw in ["turn/../$ weird", "..", "-x-", "a b", "current", "é"] {
        let once = sanitize_identifier(raw);
        assert!(!once.is_empty());
        assert!(once.chars().all(|c| c.is_ascii_alphanumeric() || c == '.' || c == '_' || c == '-'));
        assert_eq!(sanitize_identifier(&once), once);
    }
    let p = obj(vec![("turnId", s("a b"))]);
    assert_eq!(turn_id_from_payload(&p), "a_b");
    assert_eq!(turn_id_from_payload(&obj(vec![])), "current");
}

#[test]
fn installing_twice_is_installing_once() {
    let existing = obj(vec![(
        "hooks",
        obj(vec![("Stop", arr(vec![command_group("other")])), ("Custom", arr(vec![command_group("mine")]))]),
    )]);
    let once = merge_hooks_json(Some(existing), codex_hook_groups("/bin/s"), hook_marker()).unwrap();
    let shown = format!("{:?}", once);
    let twice = merge_hooks_json(Some(once), codex_hook_groups("/bin/s"), hook_marker()).unwrap();
    assert_eq!(format!("{:?}", twice), shown);
}

#[test]
fn install_preserves_unrelated_hooks_and_replaces_managed_groups() {
    let existing = obj(vec![(
        "hooks",
        obj(vec![
            (
                "Stop",
                arr(vec![command_group("other stop"), command_group("old --sprocket-managed hook codex checkpoint")]),
            ),
            (
                "PreToolUse",
                arr(vec![obj(vec![
                    ("matcher", s("Edit")),
                    ("hooks", arr(vec![obj(vec![("command", s("other pretool"))])])),
                ])]),
            ),
        ]),
    )]);
    let merged = merge_hooks_json(Some(existing), codex_hook_groups("/bin/sprocket"), hook_marker()).unwrap();
    let hooks = get(&merged, "hooks").unwrap();
    let first_command = |group: &JsonValue| {
        let inner = items(get(group, "hooks").unwrap());
        text(get(&inner[0], "command")).unwrap().to_string()
    };
    let stop = items(get(hooks, "Stop").unwrap());
    assert_eq!(stop.len(), 2);
    assert_eq!(first_command(&stop[0]), "other stop");
    assert!(first_command(&stop[1]).contains("--sprocket-managed hook codex checkpoint"));
    let pretool = items(get(hooks, "PreToolUse").unwrap());
    assert_eq!(pretool.len(), 2);
    assert_eq!(text(get(&pretool[0], "matcher")), Some("Edit"));
}
