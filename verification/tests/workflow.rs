use sprocket::cli::{dispatch, parse_hook_args, parse_install_args, parse_session_args, CliCommand, CliError, HookKind};
use sprocket::config::{
    apply_defaults, pathspecs_overlap, render_commit_message, validate_config, CommitConfig, CommitKind, ConfigError,
    SprocketConfig,
};
use sprocket::docs_worker::{build_docs_prompt, docs_instructions, docs_worker_args, docs_worker_outcome};
use sprocket::gitparse::{
    parse_tar_paths, parse_tar_size, path_list_from_output, split_nul_bytes, status_paths_from_output,
    trim_trailing_newline,
};
use sprocket::domain::repopath::RepoPath;
use sprocket::stores::{encode_runtime_key, join, local_config, RuntimeLayout, Stores};
use sprocket::visible::{
    classify_kind, diff_manifests, has_changes_under_roots, matches_milestone_glob, record_checkpoint,
    record_pending_turn, should_checkpoint, source_root_layout_changed, Delta, GlobError, ManagerState, ManifestEntry,
};
use sprocket::visible_flow::{
    adopt_baseline, commit_args, commit_failure, ensure_gitignore_rule, head_from_output, path_status_args,
    sort_manifest, stage_args, staged_check_args, staged_files_args, visible_decision, CommitFailure, VisibleDecision,
};
use sprocket::visible_snapshot::{
    build_git_args, deleted_entry, manifest_fingerprint, present_entry, present_paths, split_nul_list,
};
use sprocket::domain::ids::hash_hex;

fn present(path: &str, digest: &str) -> ManifestEntry {
    ManifestEntry { path: path.to_string(), status: "present".to_string(), sha256: Some(digest.to_string()) }
}

fn strings(items: &[&str]) -> Vec<String> {
    items.iter().map(|s| s.to_string()).collect()
}

fn delta(changed: &[&str]) -> Delta {
    Delta { added: Vec::new(), modified: strings(changed), deleted: Vec::new(), changed_paths: strings(changed) }
}

fn fresh_manager() -> ManagerState {
    ManagerState {
        version: 1,
        generation: 0,
        last_checkpoint_fingerprint: None,
        last_checkpoint_manifest: Vec::new(),
        last_checkpoint_commit: None,
        last_checkpoint_at: None,
        pending_turn_count: 0,
        pending_first_seen_at: None,
        pending_last_seen_at: None,
        docs_backlog: false,
    }
}

#[test]
fn diff_manifests_splits_added_modified_deleted() {
    let old = vec![present("a", "1"), present("b", "2"), present("c", "3")];
    let new = vec![present("b", "9"), present("c", "3"), present("d", "4")];
    let d = diff_manifests(&old, &new);
    assert_eq!(d.added, strings(&["d"]));
    assert_eq!(d.modified, strings(&["b"]));
    assert_eq!(d.deleted, strings(&["a"]));
    assert_eq!(d.changed_paths, strings(&["a", "b", "d"]));
    let same = diff_manifests(&new, &new);
    assert!(same.changed_paths.is_empty());
}

#[test]
fn checkpoints_follow_turn_file_and_age_thresholds() {
    let config = CommitConfig::default();
    let m = fresh_manager();
    assert!(!should_checkpoint(&delta(&[]), &m, &config, 0));
    assert!(!should_checkpoint(&delta(&["src/a.py"]), &m, &config, 0));
    assert!(should_checkpoint(&delta(&["src/a.py", "src/b.py", "src/c.py"]), &m, &config, 0));
    let mut pending = fresh_manager();
    record_pending_turn(&mut pending, 100);
    assert_eq!(pending.pending_turn_count, 1);
    assert_eq!(pending.pending_first_seen_at, Some(100));
    assert!(should_checkpoint(&delta(&["src/a.py"]), &pending, &config, 0));
    let mut old = fresh_manager();
    old.last_checkpoint_at = Some(1000);
    assert!(!should_checkpoint(&delta(&["src/a.py"]), &old, &config, 2199));
    assert!(should_checkpoint(&delta(&["src/a.py"]), &old, &config, 2200));
}

#[test]
fn record_checkpoint_resets_pending_state() {
    let mut m = fresh_manager();
    record_pending_turn(&mut m, 5);
    record_pending_turn(&mut m, 6);
    assert_eq!(m.pending_first_seen_at, Some(5));
    assert_eq!(m.pending_last_seen_at, Some(6));
    record_checkpoint(&mut m, "sha256:f".to_string(), vec![present("a", "1")], "c1".to_string(), 9);
    assert_eq!(m.last_checkpoint_fingerprint.as_deref(), Some("sha256:f"));
    assert_eq!(m.last_checkpoint_commit.as_deref(), Some("c1"));
    assert_eq!(m.last_checkpoint_at, Some(9));
    assert_eq!(m.pending_turn_count, 0);
    assert_eq!(m.pending_first_seen_at, None);
    assert_eq!(m.generation, 1);
}

#[test]
fn commit_kind_prefers_milestones_when_docs_are_enabled() {
    let config = SprocketConfig::default();
    let m = fresh_manager();
    assert_eq!(classify_kind(&delta(&[]), &m, &config, 0).unwrap(), CommitKind::NoCommit);
    assert_eq!(classify_kind(&delta(&["Cargo.toml"]), &m, &config, 0).unwrap(), CommitKind::Milestone);
    assert_eq!(classify_kind(&delta(&["src/a.py"]), &m, &config, 0).unwrap(), CommitKind::NoCommit);
    let mut added = delta(&["src/new.py"]);
    added.added = strings(&["src/new.py"]);
    assert_eq!(classify_kind(&added, &m, &config, 0).unwrap(), CommitKind::Milestone);
    let mut backlog = fresh_manager();
    backlog.docs_backlog = true;
    assert_eq!(classify_kind(&delta(&["src/a.py"]), &backlog, &config, 0).unwrap(), CommitKind::Milestone);
    let mut no_docs = SprocketConfig::default();
    no_docs.docs.enabled = false;
    assert_eq!(
        classify_kind(&delta(&["a", "b", "c"]), &m, &no_docs, 0).unwrap(),
        CommitKind::Checkpoint
    );
    let mut bad = SprocketConfig::default();
    bad.docs.triggers.milestone_globs = strings(&["[unclosed"]);
    let err = classify_kind(&delta(&["src/a.py"]), &m, &bad, 0).unwrap_err();
    assert!(matches!(err, GlobError::Invalid { ref pattern } if pattern == "[unclosed"));
}

#[test]
fn milestone_globs_and_roots() {
    let d = delta(&[".github/workflows/ci.yml", "src/x.py"]);
    assert_eq!(matches_milestone_glob(&d, &strings(&[".github/workflows/**"])).unwrap(), true);
    assert_eq!(matches_milestone_glob(&d, &strings(&["*.toml"])).unwrap(), false);
    assert_eq!(matches_milestone_glob(&d, &strings(&["*.toml", "src/*.py"])).unwrap(), true);
    let err = matches_milestone_glob(&d, &strings(&["*.toml", "a[", "b["])).unwrap_err();
    assert!(matches!(err, GlobError::Invalid { ref pattern } if pattern == "a["));
    assert_eq!(matches_milestone_glob(&delta(&[]), &strings(&["*.toml"])).unwrap(), false);
    assert!(has_changes_under_roots(&d, &strings(&["src"])));
    assert!(!has_changes_under_roots(&d, &strings(&["sr"])));
    assert!(!source_root_layout_changed(&d, &strings(&["src"])));
}

#[test]
fn commit_messages_fill_in_the_area() {
    let c = CommitConfig::default();
    assert_eq!(render_commit_message(&c, CommitKind::Checkpoint), "checkpoint(core): save current work [auto]");
    assert_eq!(
        render_commit_message(&c, CommitKind::Milestone),
        "milestone(core): sync docs and save current work [auto]"
    );
}

#[test]
fn defaults_fill_empty_settings() {
    let mut c = SprocketConfig::default();
    c.version = 0;
    c.commit.owned_paths.clear();
    c.commit.checkpoint_turn_threshold = 0;
    c.commit.default_area = "   ".to_string();
    c.docs.managed_outputs.clear();
    c.docs.model = String::new();
    apply_defaults(&mut c);
    assert_eq!(c.version, 1);
    assert_eq!(c.commit.owned_paths, strings(&["src", "tests"]));
    assert_eq!(c.commit.checkpoint_turn_threshold, 2);
    assert_eq!(c.commit.default_area, "core");
    assert_eq!(c.docs.managed_outputs, strings(&["docs/ARCHITECTURE.md", "docs/project/llms/llms.txt"]));
    assert_eq!(c.docs.model, "gpt-5.3-codex-spark");
}

#[test]
fn managed_outputs_may_not_overlap_owned_paths() {
    assert!(pathspecs_overlap("docs", "docs/ARCHITECTURE.md"));
    assert!(pathspecs_overlap("docs/ARCHITECTURE.md/", "docs"));
    assert!(!pathspecs_overlap("src", "srcx"));
    assert!(!pathspecs_overlap("", "src"));
    assert!(validate_config(&SprocketConfig::default()).is_ok());
    let mut c = SprocketConfig::default();
    c.commit.owned_paths = strings(&["src", "docs"]);
    match validate_config(&c) {
        Err(ConfigError::ManagedOutputOverlapsOwnedPath { output, owned }) => {
            assert_eq!(output, "docs/ARCHITECTURE.md");
            assert_eq!(owned, "docs");
            let e = ConfigError::ManagedOutputOverlapsOwnedPath { output, owned };
            assert_eq!(
                e.message(),
                "docs.managed_outputs overlaps commit.owned_paths: `docs/ARCHITECTURE.md` vs `docs`"
            );
        }
        Ok(()) => panic!("overlap not detected"),
    }
}

#[test]
fn visible_decision_skips_repeats_and_empty_turns() {
    let config = CommitConfig::default();
    let mut m = fresh_manager();
    m.last_checkpoint_fingerprint = Some("sha256:a".to_string());
    assert_eq!(visible_decision(&m, "sha256:a", &delta(&["x"]), &config, 0), VisibleDecision::AlreadyCheckpointed);
    assert_eq!(visible_decision(&m, "sha256:b", &delta(&[]), &config, 0), VisibleDecision::NoChanges);
    assert_eq!(visible_decision(&m, "sha256:b", &delta(&["x"]), &config, 0), VisibleDecision::Pending);
    assert_eq!(visible_decision(&m, "sha256:b", &delta(&["x", "y", "z"]), &config, 0), VisibleDecision::Commit);
}

#[test]
fn baseline_is_adopted_only_once() {
    let mut m = fresh_manager();
    adopt_baseline(&mut m, "sha256:a", vec![present("a", "1")], Some("h".to_string()), 3);
    assert_eq!(m.last_checkpoint_fingerprint.as_deref(), Some("sha256:a"));
    assert_eq!(m.last_checkpoint_at, Some(3));
    adopt_baseline(&mut m, "sha256:b", Vec::new(), None, 4);
    assert_eq!(m.last_checkpoint_fingerprint.as_deref(), Some("sha256:a"));
    assert_eq!(m.last_checkpoint_manifest.len(), 1);
}

#[test]
fn visible_git_command_lines() {
    let paths = strings(&["src", "tests"]);
    assert_eq!(stage_args(&paths), strings(&["add", "-A", "--", "src", "tests"]));
    assert_eq!(
        commit_args("checkpoint(core): x", &strings(&["src/a.py"])),
        strings(&["commit", "--no-verify", "-m", "checkpoint(core): x", "--", "src/a.py"])
    );
    assert_eq!(
        path_status_args("notes.txt"),
        strings(&["status", "--porcelain=v1", "--untracked-files=all", "--", ":(literal)notes.txt"])
    );
    assert_eq!(
        build_git_args("ls-files", &["-z"], &paths),
        strings(&["ls-files", "-z", "--", "src", "tests"])
    );
    assert_eq!(staged_check_args(&paths), strings(&["diff", "--cached", "--quiet", "--", "src", "tests"]));
    assert_eq!(
        staged_files_args(&paths),
        strings(&["diff", "--cached", "--name-only", "-z", "--", "src", "tests"])
    );
}

#[test]
fn manifest_entries_record_presence_and_digest() {
    let e = present_entry("src/a.py".to_string(), b"abc");
    assert_eq!(e.path, "src/a.py");
    assert_eq!(e.status, "present");
    assert_eq!(
        e.sha256.as_deref(),
        Some("ba7816bf8f01cfea414140de5dae2223b00361a396177a9cb410ff61f20015ad")
    );
    let d = deleted_entry("src/b.py".to_string());
    assert_eq!(d.status, "deleted");
    assert_eq!(d.sha256, None);
}

#[test]
fn commit_output_is_read() {
    assert!(matches!(commit_failure(b"nothing to commit, working tree clean\n", b""), CommitFailure::NothingToCommit));
    match commit_failure(b"", b"  fatal: bad object\n") {
        CommitFailure::Failed(t) => assert_eq!(t, "fatal: bad object"),
        other => panic!("unexpected {:?}", other),
    }
    assert_eq!(head_from_output(" abc123\n").as_deref(), Some("abc123"));
    assert_eq!(head_from_output("\n"), None);
}

#[test]
fn gitignore_rule_is_added_once() {
    assert_eq!(ensure_gitignore_rule("target\n", ".sprocket/state/").as_deref(), Some("target\n.sprocket/state/\n"));
    assert_eq!(ensure_gitignore_rule("target", ".sprocket/state/").as_deref(), Some("target\n.sprocket/state/\n"));
    assert_eq!(ensure_gitignore_rule("", "x").as_deref(), Some("x\n"));
    assert_eq!(ensure_gitignore_rule("a\n  x  \r\nb\n", "x"), None);
}

#[test]
fn manifests_sort_by_path() {
    let sorted = sort_manifest(vec![present("b", "1"), present("a", "2"), present("c", "3")]);
    let paths: Vec<&str> = sorted.iter().map(|e| e.path.as_str()).collect();
    assert_eq!(paths, vec!["a", "b", "c"]);
}

#[test]
fn manifest_fingerprint_is_a_sha256() {
    assert_eq!(
        manifest_fingerprint(b"abc"),
        "sha256:ba7816bf8f01cfea414140de5dae2223b00361a396177a9cb410ff61f20015ad"
    );
}

#[test]
fn present_paths_drop_deleted_and_merge_untracked() {
    let r = present_paths(&strings(&["b", "a", "gone"]), &strings(&["gone"]), &strings(&["c", "a"]));
    assert_eq!(r, strings(&["a", "b", "c"]));
    assert_eq!(split_nul_list("a\0b\0\0"), strings(&["a", "b"]));
}

#[test]
fn git_output_is_split_into_paths() {
    assert_eq!(split_nul_bytes(b"a\0b"), vec![b"a".to_vec(), b"b".to_vec()]);
    assert_eq!(
        path_list_from_output(b"src/a\0\0src/b\0"),
        vec![RepoPath::from_str("src/a"), RepoPath::from_str("src/b")]
    );
    assert_eq!(
        status_paths_from_output(b" M src/a\0?? new\0"),
        vec![RepoPath::from_str("src/a"), RepoPath::from_str("new")]
    );
    assert_eq!(trim_trailing_newline(b"abc\n"), b"abc".to_vec());
    assert_eq!(trim_trailing_newline(b"abc"), b"abc".to_vec());
}

fn tar_header(name: &str, size: usize) -> Vec<u8> {
    let mut h = vec![0u8; 512];
    h[..name.len()].copy_from_slice(name.as_bytes());
    let size_field = format!("{:011o}\0", size);
    h[124..136].copy_from_slice(size_field.as_bytes());
    h[156] = b'0';
    h
}

#[test]
fn tar_listing_yields_member_paths() {
    assert_eq!(parse_tar_size(b"00000000012\0"), 10);
    assert_eq!(parse_tar_size(b"junk"), 0);
    let mut archive = tar_header("src/lib.rs", 10);
    archive.extend(vec![b'x'; 512]);
    archive.extend(tar_header("README.md", 0));
    archive.extend(vec![0u8; 1024]);
    assert_eq!(
        parse_tar_paths(&archive),
        vec![RepoPath::from_str("src/lib.rs"), RepoPath::from_str("README.md")]
    );
}

#[test]
fn docs_worker_command_and_outcome() {
    let docs = SprocketConfig::default().docs;
    let args = docs_worker_args("/repo", &docs, "PROMPT");
    assert_eq!(
        args,
        strings(&[
            "exec",
            "--ephemeral",
            "--ask-for-approval",
            "never",
            "--sandbox",
            "workspace-write",
            "-m",
            "gpt-5.3-codex-spark",
            "-c",
            "model_reasoning_effort=\"medium\"",
            "-C",
            "/repo",
            "--disable",
            "codex_hooks",
            "PROMPT"
        ])
    );
    assert_eq!(docs_worker_outcome(true, true, b"x", b""), (false, "docs worker timed out".to_string()));
    assert_eq!(docs_worker_outcome(false, false, b"", b" \n"), (false, "docs worker failed".to_string()));
    assert_eq!(docs_worker_outcome(false, true, b" ok\n", b""), (true, "ok".to_string()));
    assert_eq!(docs_worker_outcome(false, false, b"", b"boom\n"), (false, "boom".to_string()));
    assert_eq!(docs_instructions("  "), docs_instructions(""));
    assert_eq!(docs_instructions("mine"), "mine");
    let prompt = build_docs_prompt("Do it", &strings(&["a.md", "b.md"]), "P", "A", "{}");
    assert_eq!(
        prompt,
        "Do it\n\nManaged docs outputs:\n- a.md\n- b.md\n\nProject rules:\nP\n\nArchitecture rules:\nA\n\nChanged repo state summary:\n{}\n"
    );
}

#[test]
fn command_line_dispatch() {
    assert!(matches!(dispatch(vec![]), CliCommand::Help));
    assert!(matches!(dispatch(strings(&["--help"])), CliCommand::Help));
    assert!(matches!(dispatch(strings(&["-V"])), CliCommand::Version));
    match dispatch(strings(&["--sprocket-managed", "hook", "codex", "checkpoint"])) {
        CliCommand::Hook(rest) => assert_eq!(rest, strings(&["codex", "checkpoint"])),
        other => panic!("unexpected {:?}", other),
    }
    assert!(matches!(dispatch(strings(&["doctor"])), CliCommand::NotImplemented(n) if n == "doctor"));
    assert!(matches!(dispatch(strings(&["frobnicate"])), CliCommand::Unknown(n) if n == "frobnicate"));
}

#[test]
fn install_hook_and_session_arguments() {
    assert_eq!(parse_install_args(&strings(&["codex", "--target-repo", "/r"])).unwrap(), Some("/r".to_string()));
    assert_eq!(parse_install_args(&strings(&["codex"])).unwrap(), None);
    assert!(matches!(parse_install_args(&strings(&["other"])), Err(CliError::InstallUsage)));
    assert!(matches!(parse_install_args(&strings(&["codex", "--target-repo"])), Err(CliError::TargetRepoNeedsPath)));
    assert!(matches!(parse_install_args(&strings(&["codex", "-x"])), Err(CliError::UnknownInstallArgument(a)) if a == "-x"));
    assert_eq!(parse_hook_args(&strings(&["codex", "pre-tool-use"])).unwrap(), HookKind::PreToolUse);
    assert!(matches!(parse_hook_args(&strings(&["codex"])), Err(CliError::HookUsage)));
    assert!(matches!(parse_hook_args(&strings(&["codex", "nope"])), Err(CliError::UnknownHook(h)) if h == "nope"));
    let s = parse_session_args(&strings(&["status", "--session-id", "s1", "--target-repo", "/r"])).unwrap();
    assert_eq!((s.subcommand.as_str(), s.target_repo.as_deref(), s.session_id.as_str()), ("status", Some("/r"), "s1"));
    assert!(matches!(parse_session_args(&strings(&[])), Err(CliError::SessionUsage)));
    assert!(matches!(parse_session_args(&strings(&["status"])), Err(CliError::SessionIdRequired)));
    assert!(matches!(
        parse_session_args(&strings(&["status", "--session-id", "session-current"])),
        Err(CliError::UnstableSessionId)
    ));
    assert!(matches!(parse_session_args(&strings(&["status", "--session-id"])), Err(CliError::SessionIdNeedsValue)));
    assert!(matches!(parse_session_args(&strings(&["status", "--x"])), Err(CliError::UnknownSessionArgument(a)) if a == "--x"));
    assert_eq!(CliError::UnknownCommand("zz".to_string()).message(), "unknown command: zz");
}

#[test]
fn runtime_paths_and_keys() {
    assert_eq!(join(b"/a", b"b"), b"/a/b".to_vec());
    assert_eq!(join(b"/a/", b"b"), b"/a/b".to_vec());
    assert_eq!(join(b"/a", b"/abs"), b"/abs".to_vec());
    assert_eq!(encode_runtime_key("../session id"), "k-Li4vc2Vzc2lvbiBpZA");
    let layout = RuntimeLayout::from_root(b"/repo/.git/sprocket".to_vec());
    assert_eq!(layout.lock_path, b"/repo/.git/sprocket/checkpoint.lock".to_vec());
    assert_eq!(layout.local_config_path, b"/repo/.git/sprocket/local.toml".to_vec());
    let stores = Stores::for_stream(layout, "abc");
    assert_eq!(stores.manager.path, b"/repo/.git/sprocket/streams/abc/manager.json".to_vec());
    assert_eq!(stores.journal.path, b"/repo/.git/sprocket/streams/abc/journal/events.ndjson".to_vec());
    assert_eq!(
        stores.turns.path("s", "t"),
        b"/repo/.git/sprocket/turns/k-cw/k-dA.json".to_vec()
    );
    assert_eq!(stores.sessions.path("s"), b"/repo/.git/sprocket/streams/abc/sessions/k-cw.json".to_vec());
    assert_eq!(stores.manifests.path("m1"), b"/repo/.git/sprocket/streams/abc/manifests/m1.json.zst".to_vec());
}

#[test]
fn local_config_records_the_worktree_digest() {
    let c = local_config("/bin/sprocket", "0.1.0", b"/repo");
    assert_eq!(c.version, 2);
    assert_eq!(c.binary_path, "/bin/sprocket");
    assert_eq!(c.install_version, "0.1.0");
    assert_eq!(c.worktree_id, hash_hex(b"/repo"));
}

#[test]
fn ls_tree_records_become_tree_entries() {
    let out = b"100644 blob 1111\tsrc/lib.rs\0160000 commit 2222\tvendor/sub\0garbage\0100755 blob 3333\tbin/run\0";
    let entries = sprocket::gitparse::parse_ls_tree(out);
    assert_eq!(entries.len(), 3);
    assert_eq!(entries[0].mode, 0o100644);
    assert_eq!(entries[0].kind, "blob");
    assert_eq!(entries[0].oid, "1111");
    assert_eq!(entries[0].path, RepoPath::from_str("src/lib.rs"));
    assert_eq!(entries[1].kind, "commit");
    assert_eq!(entries[1].mode, 0o160000);
    assert_eq!(entries[2].path, RepoPath::from_str("bin/run"));
    assert!(sprocket::gitparse::parse_ls_tree(b"").is_empty());
    assert!(sprocket::gitparse::parse_ls_tree(b"100644 blob 1111\t\0").is_empty());
}

#[test]
fn git_config_answers_are_read() {
    assert!(sprocket::gitparse::config_is_true(b"true\n"));
    assert!(!sprocket::gitparse::config_is_true(b"false\n"));
    assert!(!sprocket::gitparse::config_is_true(b""));
}

#[test]
fn tracker_and_intent_files_live_under_the_stream() {
    let layout = RuntimeLayout::from_root(b"/r".to_vec());
    let root = layout.stream_root("s");
    let trackers = sprocket::stores::SessionTrackerStore::new(&root);
    assert_eq!(trackers.path("a"), b"/r/streams/s/session-trackers/k-YQ.json".to_vec());
    let intents = sprocket::stores::IntentStore::new(&root);
    assert_eq!(intents.path, b"/r/streams/s/intents/intents.ndjson".to_vec());
}

#[test]
fn hook_file_errors_have_messages() {
    assert_eq!(
        sprocket::payload::HooksJsonError::RootNotObject.message(),
        "hooks.json root must be an object"
    );
    assert_eq!(
        sprocket::payload::HooksJsonError::EventNotArray.message(),
        "hooks.json event must be an array"
    );
}

#[test]
fn invalid_utf8_output_is_decoded_lossily() {
    assert_eq!(docs_worker_outcome(false, true, b"\xff ok", b""), (true, "\u{fffd} ok".to_string()));
}

#[test]
fn present_path_lists_are_merged() {
    let a = vec![RepoPath::from_str("b"), RepoPath::from_str("a")];
    let b = vec![RepoPath::from_str("c"), RepoPath::from_str("a")];
    assert_eq!(
        sprocket::gitparse::union_paths(a, b),
        vec![RepoPath::from_str("a"), RepoPath::from_str("b"), RepoPath::from_str("c")]
    );
}

#[test]
fn oversized_milestone_globs_cannot_be_built() {
    let alternatives: Vec<String> = (0..60_000).map(|i| format!("dir{i:08}/file")).collect();
    let huge = format!("{{{}}}/*.x", alternatives.join(","));
    let d = delta(&["src/a.py"]);
    assert!(matches!(matches_milestone_glob(&d, &strings(&[huge.as_str()])), Err(GlobError::Unbuildable)));
}

// The visible-checkpoint scenarios: the repository holds `src/main.py`, `tests/test_main.py`
// and `README.md`; `src` and `tests` are owned.

fn owned_manifest(files: &[(&str, &[u8])], owned: &[String]) -> Vec<ManifestEntry> {
    let mut entries = Vec::new();
    for (path, bytes) in files {
        if sprocket::visible::is_under_roots(path, owned) {
            entries.push(present_entry(path.to_string(), bytes));
        }
    }
    sprocket::visible_flow::sort_manifest(entries)
}

fn fast_config() -> CommitConfig {
    let mut config = CommitConfig::default();
    config.checkpoint_turn_threshold = 1;
    config.checkpoint_file_threshold = 1;
    config.checkpoint_age_minutes = 0;
    config
}

fn base_files() -> Vec<(&'static str, &'static [u8])> {
    vec![
        ("src/main.py", b"print('hi')\n".as_slice()),
        ("tests/test_main.py", b"def test_ok():\n    assert True\n".as_slice()),
        ("README.md", b"# Demo\n".as_slice()),
    ]
}

fn fingerprint_of(manifest: &[ManifestEntry]) -> String {
    manifest_fingerprint(format!("{:?}", manifest).as_bytes())
}

#[test]
fn no_changes_after_baseline_creates_no_commit() {
    let config = CommitConfig::default();
    let baseline = owned_manifest(&base_files(), &config.owned_paths);
    let mut m = fresh_manager();
    adopt_baseline(&mut m, &fingerprint_of(&baseline), baseline.clone(), Some("base".to_string()), 10);
    let current = owned_manifest(&base_files(), &config.owned_paths);
    let d = diff_manifests(&m.last_checkpoint_manifest, &current);
    assert!(d.changed_paths.is_empty());
    assert_eq!(visible_decision(&m, &fingerprint_of(&current), &d, &config, 20), VisibleDecision::AlreadyCheckpointed);
}

#[test]
fn owned_changes_create_local_checkpoint_commit() {
    let config = fast_config();
    let baseline = owned_manifest(&base_files(), &config.owned_paths);
    let mut m = fresh_manager();
    adopt_baseline(&mut m, &fingerprint_of(&baseline), baseline, Some("base".to_string()), 10);
    let mut files = base_files();
    files[0] = ("src/main.py", b"print('updated')\n".as_slice());
    let current = owned_manifest(&files, &config.owned_paths);
    let d = diff_manifests(&m.last_checkpoint_manifest, &current);
    assert_eq!(d.modified, strings(&["src/main.py"]));
    assert_eq!(visible_decision(&m, &fingerprint_of(&current), &d, &config, 20), VisibleDecision::Commit);
    let message = render_commit_message(&config, CommitKind::Checkpoint);
    assert_eq!(message, "checkpoint(core): save current work [auto]");
    assert_eq!(
        commit_args(&message, &d.changed_paths),
        strings(&["commit", "--no-verify", "-m", "checkpoint(core): save current work [auto]", "--", "src/main.py"])
    );
}

#[test]
fn unowned_changes_are_not_committed() {
    let config = fast_config();
    let baseline = owned_manifest(&base_files(), &config.owned_paths);
    let mut m = fresh_manager();
    adopt_baseline(&mut m, &fingerprint_of(&baseline), baseline, Some("base".to_string()), 10);
    let mut files = base_files();
    files.push(("notes.txt", b"unowned\n".as_slice()));
    let current = owned_manifest(&files, &config.owned_paths);
    let d = diff_manifests(&m.last_checkpoint_manifest, &current);
    assert!(d.changed_paths.is_empty());
    assert_eq!(visible_decision(&m, &fingerprint_of(&current), &d, &config, 20), VisibleDecision::AlreadyCheckpointed);
    assert!(!sprocket::visible::is_under_roots("notes.txt", &config.owned_paths));
}
