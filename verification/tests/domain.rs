use sprocket::domain::decision::{classify, saturating_sub_i64, ClassifyInput, Decision, NoopReason};
use sprocket::domain::delta::{changed_path_count, changed_paths, diff_entries, entries_by_path, same_entry};
use sprocket::domain::ids::{checkpoint_ref_path, compute_stream_identity, hash_hex, snapshot_fingerprint};
use sprocket::domain::journal::{hook_noop, intent_transition, journal_session_start, recovery, JournalEvent};
use sprocket::domain::manager::{merge_pending_source, reconcile_pending, PendingSource};
use sprocket::domain::manifest::{StrictEntry, StrictSnapshot};
use sprocket::domain::policy::{matches_rule, CheckpointMode, Policy};
use sprocket::domain::repopath::RepoPath;
use sprocket::domain::session::{refresh_session, HeadState, RepoState, SessionState, StreamClass};
use sprocket::domain::session_tracker::{thresholds_met, CommitBlockReason, SessionThresholdInput};
use sprocket::domain::errors::SprocketError;
use sprocket::domain::intent::{CheckpointIntent, IntentPhase};

fn entry(path: &str, digest: &str, oid: &str) -> StrictEntry {
    StrictEntry {
        path: RepoPath::from_str(path),
        mode: 0o100644,
        observed_digest: digest.to_string(),
        git_oid: oid.to_string(),
    }
}

fn input<'a>(stream_now: &'a str, stream_start: &'a str) -> ClassifyInput<'a> {
    ClassifyInput {
        stream_id_now: stream_now,
        stream_id_at_start: stream_start,
        now_unix: 300,
        anchor_fingerprint: "anchor",
        turn_baseline_fingerprint: "dirty",
        anchor_fingerprint_at_start: "anchor",
        current_fingerprint: "dirty",
        global_changed_paths: 1,
        pending_turn_count: 0,
        pending_first_seen_at: None,
        turn_threshold: 2,
        file_threshold: 9,
        age_seconds: 999,
    }
}

#[test]
fn compute_stream_identity_changes_between_branch_and_detached() {
    let repo = b"/tmp/worktree";
    let attached = HeadState {
        oid: Some("abc123".to_string()),
        symref: Some("refs/heads/main".to_string()),
        detached: false,
    };
    let detached = HeadState { oid: Some("abc123".to_string()), symref: None, detached: true };

    let attached_stream = compute_stream_identity(repo, &attached);
    let detached_stream = compute_stream_identity(repo, &detached);

    assert_ne!(attached_stream.stream_id, detached_stream.stream_id);
    assert_eq!(attached_stream.display_name, "refs/heads/main");
    assert!(detached_stream.display_name.starts_with("detached:"));
}

#[test]
fn stream_identity_names_its_hidden_ref_and_class() {
    let head = HeadState {
        oid: Some("abc123".to_string()),
        symref: Some("refs/heads/main".to_string()),
        detached: false,
    };
    let s = compute_stream_identity(b"/tmp/worktree", &head);
    assert_eq!(s.worktree_id, hash_hex(b"/tmp/worktree"));
    assert_eq!(s.stream_id, hash_hex(b"symref:refs/heads/main"));
    assert_eq!(s.hidden_ref, format!("refs/sprocket/checkpoints/v2/{}/{}", s.worktree_id, s.stream_id));
    assert!(matches!(s.class, StreamClass::Branch { ref symref } if symref == "refs/heads/main"));
    let unborn = HeadState { oid: None, symref: None, detached: false };
    let u = compute_stream_identity(b"/tmp/worktree", &unborn);
    assert_eq!(u.display_name, "unborn");
    assert!(matches!(u.class, StreamClass::DetachedHead));
}

#[test]
fn hash_hex_is_the_blake3_digest_in_lowercase_hex() {
    let h = hash_hex(b"abc");
    assert_eq!(h, "6437b3ac38465133ffb63b75273a8db548c558465d79db03fd359c6cd5bd9d85");
    assert_eq!(hash_hex(b"").len(), 64);
    assert_ne!(hash_hex(b"a"), hash_hex(b"b"));
}

#[test]
fn checkpoint_ref_path_joins_worktree_and_stream() {
    assert_eq!(checkpoint_ref_path("w1", "s1"), "refs/sprocket/checkpoints/v2/w1/s1");
}

#[test]
fn snapshot_fingerprint_depends_on_every_field() {
    let a = snapshot_fingerprint(&[(b"src/lib.rs".as_slice(), 0o100644, "oid-a")]);
    let b = snapshot_fingerprint(&[(b"src/lib.rs".as_slice(), 0o100755, "oid-a")]);
    let c = snapshot_fingerprint(&[(b"src/lib.rs".as_slice(), 0o100644, "oid-b")]);
    let d = snapshot_fingerprint(&[(b"src/main.rs".as_slice(), 0o100644, "oid-a")]);
    assert!(a.starts_with("blake3:"));
    assert_ne!(a, b);
    assert_ne!(a, c);
    assert_ne!(a, d);
    assert_eq!(a, snapshot_fingerprint(&[(b"src/lib.rs".as_slice(), 0o100644, "oid-a")]));
}

#[test]
fn classify_inherited_dirty_materializes_after_threshold() {
    let decision = classify(&ClassifyInput {
        stream_id_now: "stream",
        stream_id_at_start: "stream",
        now_unix: 300,
        anchor_fingerprint: "anchor",
        turn_baseline_fingerprint: "dirty",
        anchor_fingerprint_at_start: "anchor",
        current_fingerprint: "dirty",
        global_changed_paths: 1,
        pending_turn_count: 1,
        pending_first_seen_at: Some(100),
        turn_threshold: 2,
        file_threshold: 9,
        age_seconds: 999,
    });
    assert!(matches!(decision, Decision::Materialize { source: PendingSource::Inherited, .. }));
}

#[test]
fn classify_stream_change_noops() {
    let decision = classify(&ClassifyInput {
        stream_id_now: "stream-b",
        stream_id_at_start: "stream-a",
        now_unix: 300,
        anchor_fingerprint: "anchor",
        turn_baseline_fingerprint: "dirty",
        anchor_fingerprint_at_start: "anchor",
        current_fingerprint: "dirty",
        global_changed_paths: 1,
        pending_turn_count: 0,
        pending_first_seen_at: None,
        turn_threshold: 2,
        file_threshold: 9,
        age_seconds: 999,
    });
    assert!(matches!(decision, Decision::Noop(NoopReason::StreamChanged)));
}

#[test]
fn classify_matching_anchor_noops() {
    let mut i = input("s", "s");
    i.current_fingerprint = "anchor";
    assert_eq!(classify(&i), Decision::Noop(NoopReason::MatchesAnchor));
}

#[test]
fn classify_first_dirty_turn_is_recorded_as_pending() {
    let mut i = input("s", "s");
    i.turn_baseline_fingerprint = "anchor";
    assert_eq!(
        classify(&i),
        Decision::RecordPending { source: PendingSource::TurnLocal, changed_paths: 1 }
    );
}

#[test]
fn classify_file_threshold_materializes() {
    let mut i = input("s", "s");
    i.turn_baseline_fingerprint = "anchor";
    i.global_changed_paths = 9;
    assert_eq!(
        classify(&i),
        Decision::Materialize { source: PendingSource::TurnLocal, changed_paths: 9 }
    );
}

#[test]
fn classify_anchor_moved_during_turn_is_external() {
    let mut i = input("s", "s");
    i.anchor_fingerprint_at_start = "older";
    i.turn_baseline_fingerprint = "older";
    i.current_fingerprint = "older";
    assert_eq!(
        classify(&i),
        Decision::RecordPending { source: PendingSource::External, changed_paths: 1 }
    );
}

#[test]
fn saturating_subtraction_clamps() {
    assert_eq!(saturating_sub_i64(10, 3), 7);
    assert_eq!(saturating_sub_i64(i64::MIN, 1), i64::MIN);
    assert_eq!(saturating_sub_i64(i64::MAX, -1), i64::MAX);
}

#[test]
fn reconcile_pending_merges_sources_and_sessions() {
    let snapshot = StrictSnapshot {
        materialized_fingerprint: "blake3:1".into(),
        observed_fingerprint: Some("blake3:o1".into()),
        manifest_id: "blake3:1".into(),
        entries: Vec::new(),
    };
    let pending = reconcile_pending(None, "s1", PendingSource::TurnLocal, 10, &snapshot);
    let merged = reconcile_pending(Some(pending), "s2", PendingSource::Inherited, 20, &snapshot);
    assert_eq!(merged.pending_turn_count, 2);
    assert_eq!(merged.source, PendingSource::Mixed);
    assert_eq!(
        merge_pending_source(PendingSource::External, PendingSource::External),
        PendingSource::External
    );
    assert_eq!(merged.touched_sessions, vec!["s1".to_string(), "s2".to_string()]);
}

#[test]
fn reconcile_pending_keeps_first_seen_and_unique_sessions() {
    let snapshot = StrictSnapshot {
        materialized_fingerprint: "blake3:1".into(),
        observed_fingerprint: None,
        manifest_id: "m1".into(),
        entries: Vec::new(),
    };
    let later = StrictSnapshot {
        materialized_fingerprint: "blake3:2".into(),
        observed_fingerprint: None,
        manifest_id: "m2".into(),
        entries: Vec::new(),
    };
    let first = reconcile_pending(None, "s1", PendingSource::TurnLocal, 10, &snapshot);
    assert_eq!(first.pending_turn_count, 1);
    assert_eq!(first.first_seen_at, 10);
    let epoch = first.epoch_id.clone();
    let again = reconcile_pending(Some(first), "s1", PendingSource::TurnLocal, 30, &later);
    assert_eq!(again.pending_turn_count, 2);
    assert_eq!(again.first_seen_at, 10);
    assert_eq!(again.last_seen_at, 30);
    assert_eq!(again.epoch_id, epoch);
    assert_eq!(again.first_seen_materialized_fingerprint, "blake3:1");
    assert_eq!(again.latest_materialized_fingerprint, "blake3:2");
    assert_eq!(again.latest_manifest_id, "m2");
    assert_eq!(again.source, PendingSource::TurnLocal);
    assert_eq!(again.touched_sessions, vec!["s1".to_string()]);
}

#[test]
fn merge_pending_source_table() {
    let (t, i, m, e) = (PendingSource::TurnLocal, PendingSource::Inherited, PendingSource::Mixed, PendingSource::External);
    assert_eq!(merge_pending_source(t, t), t);
    assert_eq!(merge_pending_source(t, i), m);
    assert_eq!(merge_pending_source(i, t), m);
    assert_eq!(merge_pending_source(m, e), m);
    assert_eq!(merge_pending_source(e, i), m);
}

#[test]
fn changed_paths_returns_real_path_set() {
    let old = vec![entry("src/lib.rs", "blake3:a", "oid-a")];
    let new = vec![entry("src/lib.rs", "blake3:b", "oid-b"), entry("README.md", "blake3:c", "oid-c")];
    let changed = changed_paths(&old, &new);
    assert!(changed.contains(&RepoPath::from_str("src/lib.rs")));
    assert!(changed.contains(&RepoPath::from_str("README.md")));
}

#[test]
fn changed_paths_are_sorted_and_ignore_unchanged_entries() {
    let old = vec![entry("b.txt", "d1", "o1"), entry("a.txt", "d2", "o2"), entry("gone.txt", "d3", "o3")];
    let new = vec![entry("a.txt", "d2", "o2"), entry("b.txt", "d9", "o9"), entry("c.txt", "d4", "o4")];
    let changed = changed_paths(&old, &new);
    assert_eq!(
        changed,
        vec![RepoPath::from_str("b.txt"), RepoPath::from_str("c.txt"), RepoPath::from_str("gone.txt")]
    );
    assert_eq!(changed_path_count(&old, &new), 3);
    assert_eq!(changed_path_count(&new, &new), 0);
    assert_eq!(changed_path_count(&new, &old), 3);
}

#[test]
fn diff_entries_reports_old_and_new_sides() {
    let old = vec![entry("a.txt", "d1", "o1"), entry("gone.txt", "d3", "o3")];
    let new = vec![entry("a.txt", "d2", "o2"), entry("new.txt", "d4", "o4")];
    let deltas = diff_entries(&old, &new);
    assert_eq!(deltas.len(), 3);
    assert_eq!(deltas[0].path, RepoPath::from_str("a.txt"));
    assert_eq!(deltas[0].old.as_ref().unwrap().git_oid, "o1");
    assert_eq!(deltas[0].new.as_ref().unwrap().git_oid, "o2");
    assert_eq!(deltas[1].path, RepoPath::from_str("gone.txt"));
    assert!(deltas[1].new.is_none());
    assert_eq!(deltas[2].path, RepoPath::from_str("new.txt"));
    assert!(deltas[2].old.is_none());
}

#[test]
fn entries_by_path_sorts_and_keeps_the_last_entry_per_path() {
    let entries = vec![entry("z", "d1", "o1"), entry("a", "d2", "o2"), entry("z", "d3", "o3")];
    let index = entries_by_path(&entries);
    assert_eq!(index.len(), 2);
    assert_eq!(index[0].path, RepoPath::from_str("a"));
    assert_eq!(index[1].path, RepoPath::from_str("z"));
    assert_eq!(index[1].git_oid, "o3");
}

#[test]
fn same_entry_compares_mode_digest_and_oid() {
    let a = entry("a", "d", "o");
    let mut b = entry("a", "d", "o");
    assert!(same_entry(Some(&a), Some(&b)));
    assert!(same_entry(None, None));
    assert!(!same_entry(Some(&a), None));
    b.mode = 0o100755;
    assert!(!same_entry(Some(&a), Some(&b)));
}

#[test]
fn session_thresholds_require_turns_files_or_age() {
    assert!(!thresholds_met(&SessionThresholdInput {
        turn_count_since_reset: 1,
        exclusive_path_count: 1,
        first_dirty_at: Some(100),
        now_unix: 120,
        turn_threshold: 2,
        file_threshold: 4,
        age_seconds: 60,
    }));
    assert!(thresholds_met(&SessionThresholdInput {
        turn_count_since_reset: 2,
        exclusive_path_count: 1,
        first_dirty_at: Some(100),
        now_unix: 120,
        turn_threshold: 2,
        file_threshold: 4,
        age_seconds: 60,
    }));
    assert!(matches!(CommitBlockReason::HeadMoved, CommitBlockReason::HeadMoved));
}

#[test]
fn session_thresholds_by_files_and_by_age() {
    let base = SessionThresholdInput {
        turn_count_since_reset: 0,
        exclusive_path_count: 4,
        first_dirty_at: None,
        now_unix: 120,
        turn_threshold: 2,
        file_threshold: 4,
        age_seconds: 60,
    };
    assert!(thresholds_met(&base));
    let aged = SessionThresholdInput { exclusive_path_count: 0, first_dirty_at: Some(60), ..base.clone() };
    assert!(thresholds_met(&aged));
    let young = SessionThresholdInput { exclusive_path_count: 0, first_dirty_at: Some(61), ..base };
    assert!(!thresholds_met(&young));
}

#[test]
fn journal_events_carry_their_fields() {
    match journal_session_start("s1", "stream", 42) {
        JournalEvent::SessionStart { ts, session_id, stream_id } => {
            assert_eq!(ts, 42);
            assert_eq!(session_id, "s1");
            assert_eq!(stream_id, "stream");
        }
        other => panic!("unexpected event {:?}", other),
    }
    match hook_noop(7, "stream", "checkpoint", "lock-busy") {
        JournalEvent::HookNoop { ts, stream_id, hook, reason } => {
            assert_eq!((ts, stream_id.as_str(), hook.as_str(), reason.as_str()), (7, "stream", "checkpoint", "lock-busy"));
        }
        other => panic!("unexpected event {:?}", other),
    }
    match intent_transition(9, "stream", "i1", "c1", IntentPhase::RefUpdated) {
        JournalEvent::IntentTransition { ts, intent_id, checkpoint_commit_oid, phase, .. } => {
            assert_eq!(ts, 9);
            assert_eq!(intent_id, "i1");
            assert_eq!(checkpoint_commit_oid, "c1");
            assert_eq!(phase, IntentPhase::RefUpdated);
        }
        other => panic!("unexpected event {:?}", other),
    }
    match recovery(3, "stream", "rebuilt-caches-from-hidden-ref", Some("c2")) {
        JournalEvent::Recovery { reason, commit_oid, .. } => {
            assert_eq!(reason, "rebuilt-caches-from-hidden-ref");
            assert_eq!(commit_oid.as_deref(), Some("c2"));
        }
        other => panic!("unexpected event {:?}", other),
    }
}

#[test]
fn refresh_session_keeps_start_and_moves_last_seen() {
    let fresh = refresh_session(None, "s1", "stream", 100);
    assert_eq!(fresh.started_at, 100);
    assert_eq!(fresh.last_seen_at, 100);
    assert_eq!(fresh.session_id, "s1");
    let existing = SessionState {
        version: 1,
        session_id: "s1".to_string(),
        stream_id: "old".to_string(),
        started_at: 50,
        last_seen_at: 60,
    };
    let refreshed = refresh_session(Some(existing), "s1", "stream", 100);
    assert_eq!(refreshed.started_at, 50);
    assert_eq!(refreshed.last_seen_at, 100);
    assert_eq!(refreshed.stream_id, "old");
}

#[test]
fn repo_state_reports_the_first_operation_in_progress() {
    let clean = RepoState::default();
    assert_eq!(clean.unsupported_reason(), None);
    let busy = RepoState { rebase_in_progress: true, cherry_pick_in_progress: true, ..RepoState::default() };
    assert_eq!(busy.unsupported_reason(), Some("rebase-in-progress"));
    let picking = RepoState { cherry_pick_in_progress: true, ..RepoState::default() };
    assert_eq!(picking.unsupported_reason(), Some("cherry-pick-in-progress"));
}

#[test]
fn default_policy_owns_sources_but_not_excluded_trees() {
    let policy = Policy::default();
    assert!(policy.hidden_only_mode());
    assert_eq!(policy.checkpoint.mode, CheckpointMode::HiddenOnly);
    assert!(policy.matches_owned_path(&RepoPath::from_str("src/lib.rs")));
    assert!(!policy.matches_owned_path(&RepoPath::from_str("node_modules/pkg/index.js")));
    assert!(!policy.matches_owned_path(&RepoPath::from_str(".sprocket/policy.toml")));
    assert!(policy.matches_owned_path(&RepoPath::from_str("targets/x")));
    assert_eq!(policy.git_include_pathspecs(), vec![".".to_string()]);
    assert_eq!(policy.checkpoint_subject(), "checkpoint(core): save current work [auto]");
}

#[test]
fn matches_rule_covers_the_path_and_below() {
    let p = RepoPath::from_str("src/app/main.rs");
    assert!(matches_rule("src", &p, false));
    assert!(matches_rule("src/", &p, false));
    assert!(matches_rule(".", &p, false));
    assert!(!matches_rule("sr", &p, false));
    assert!(matches_rule(":(exclude)src/app", &p, true));
    assert!(!matches_rule(":(exclude)src/app", &p, false));
}

#[test]
fn policy_epoch_changes_with_owned_rules() {
    let a = Policy::default();
    let mut b = Policy::default();
    b.owned.includes = vec!["src".to_string()];
    let ea = a.policy_epoch();
    let eb = b.policy_epoch();
    assert!(ea.0.starts_with("policy:"));
    assert_ne!(ea.0, eb.0);
    assert_eq!(ea.0, Policy::default().policy_epoch().0);
}

#[test]
fn missing_anchor_manifest_error_names_the_manifest() {
    let e = SprocketError::MissingAnchorManifest("blake3:m".to_string());
    assert!(e.message().contains("blake3:m"));
}

#[test]
fn intent_with_phase_keeps_the_move() {
    let intent = CheckpointIntent {
        version: 1,
        ts: 5,
        intent_id: "i1".to_string(),
        stream_id: "s".to_string(),
        hidden_ref: "refs/x".to_string(),
        checkpoint_commit_oid: "c1".to_string(),
        previous_hidden_oid: None,
        manifest_id: "m1".to_string(),
        materialized_fingerprint: "f1".to_string(),
        observed_fingerprint: None,
        policy_epoch: "policy:1".to_string(),
        stream_class: StreamClass::DetachedHead,
        phase: IntentPhase::Prepared,
    };
    let next = intent.with_phase(IntentPhase::Finalized, 9);
    assert_eq!(next.phase, IntentPhase::Finalized);
    assert_eq!(next.ts, 9);
    assert_eq!(next.intent_id, "i1");
    assert_eq!(next.checkpoint_commit_oid, "c1");
    assert_eq!(next.manifest_id, "m1");
}

#[test]
fn new_pending_episodes_get_fresh_ids() {
    let snapshot = StrictSnapshot {
        materialized_fingerprint: "f".into(),
        observed_fingerprint: None,
        manifest_id: "m".into(),
        entries: Vec::new(),
    };
    let a = reconcile_pending(None, "s1", PendingSource::TurnLocal, 1, &snapshot);
    let b = reconcile_pending(None, "s1", PendingSource::TurnLocal, 1, &snapshot);
    assert_eq!(a.epoch_id.len(), 36);
    assert_eq!(a.epoch_id.chars().nth(14), Some('4'));
    assert_ne!(a.epoch_id, b.epoch_id);
}
