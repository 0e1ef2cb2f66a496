use base64::Engine;
use sprocket::domain::decision::{classify, Decision};
use sprocket::domain::ids::compute_stream_identity;
use sprocket::domain::journal::{hook_noop, JournalEvent};
use sprocket::domain::manager::{AnchorState, ManagerState, PendingSource};
use sprocket::domain::manifest::StrictSnapshot;
use sprocket::domain::policy::{CheckpointMode, Policy};
use sprocket::domain::session::{HeadState, RepoState, StreamClass, StreamIdentity};
use sprocket::domain::turn::TurnState;
use sprocket::engine::hooks::{baseline_turn, maybe_promote_visible, session_start_update, PromotionOutcome};
use sprocket::engine::init_stream::{init_decision, InitDecision};
use sprocket::engine::stop::{advance_anchor, age_seconds, settle_decision, stop_input, turn_gate, StopOutcome, StopPlan};
use sprocket::domain::repopath::RepoPath;
use sprocket::engine::repair::TreeEntry;
use sprocket::engine::support::{journal_lock_busy, repo_support_reason, support_precheck};
use sprocket::stores::{RuntimeLayout, Stores};

// The scenarios below follow the hook sequences of a session (session start, baseline,
// checkpoint) through the library's decisions, with snapshots named by their fingerprints.

fn branch_head() -> HeadState {
    HeadState { oid: Some("h1".to_string()), symref: Some("refs/heads/main".to_string()), detached: false }
}

fn snap(id: &str) -> StrictSnapshot {
    StrictSnapshot {
        materialized_fingerprint: id.to_string(),
        observed_fingerprint: None,
        manifest_id: format!("m-{id}"),
        entries: Vec::new(),
    }
}

/// The stream state right after the bootstrap anchor of a clean worktree (generation 1).
fn bootstrapped(stream: &StreamIdentity, policy: &Policy, clean: &str) -> ManagerState {
    ManagerState {
        version: 3,
        stream: stream.clone(),
        generation: 1,
        anchor: AnchorState {
            checkpoint_commit_oid: "c1".to_string(),
            manifest_id: format!("m-{clean}"),
            materialized_fingerprint: clean.to_string(),
            observed_fingerprint: None,
            policy_epoch: policy.policy_epoch().0,
            stream_class: stream.class.clone(),
            observed_head_oid: Some("h1".to_string()),
            observed_head_ref: Some("refs/heads/main".to_string()),
            materialized_at: 1,
        },
        pending: None,
        last_seen: None,
        active_sessions: Vec::new(),
    }
}

/// The checkpoint hook at the end of a turn: decide, settle, and materialize when asked.
fn checkpoint(
    m: &mut ManagerState,
    stream: &StreamIdentity,
    turn: &TurnState,
    current: &StrictSnapshot,
    changed_paths: u32,
    now: i64,
    policy: &Policy,
) -> StopPlan {
    let decision: Decision = {
        let input = stop_input(
            stream,
            turn,
            m,
            current,
            changed_paths,
            now,
            policy.checkpoint.turn_threshold,
            policy.checkpoint.file_threshold,
            age_seconds(policy.checkpoint.age_minutes),
        );
        classify(&input)
    };
    let plan = settle_decision(m, &decision, &turn.session_id, current, &branch_head(), now);
    if let StopPlan::Materialize { .. } = plan {
        let commit = format!("c{}", m.generation + 1);
        advance_anchor(m, &commit, current, stream, &branch_head(), now);
    }
    plan
}

fn materialization_policy(turn_threshold: u32, file_threshold: u32, age_minutes: u64) -> Policy {
    let mut policy = Policy::default();
    policy.checkpoint.turn_threshold = turn_threshold;
    policy.checkpoint.file_threshold = file_threshold;
    policy.checkpoint.age_minutes = age_minutes;
    policy
}

#[test]
fn inherited_dirty_eventually_materializes() {
    let policy = Policy::default();
    let stream = compute_stream_identity(b"/repo", &branch_head());
    let mut m = bootstrapped(&stream, &policy, "clean");

    // s1 started on the clean tree; the worktree then became dirty outside any turn.
    session_start_update(&mut m, &snap("clean"), "s1", &branch_head(), 10);
    session_start_update(&mut m, &snap("dirty"), "s2", &branch_head(), 20);
    assert_eq!(m.pending.as_ref().unwrap().source, PendingSource::Inherited);

    let t1 = baseline_turn("s2".into(), "t1".into(), &stream, m.anchor.policy_epoch.clone(), 21, &snap("dirty"), &m);
    let plan = checkpoint(&mut m, &stream, &t1, &snap("dirty"), 1, 22, &policy);
    assert_eq!(plan, StopPlan::Done { outcome: StopOutcome::Pending, source: Some(PendingSource::Inherited) });
    assert!(m.pending.is_some());

    let t2 = baseline_turn("s2".into(), "t2".into(), &stream, m.anchor.policy_epoch.clone(), 23, &snap("dirty"), &m);
    let plan = checkpoint(&mut m, &stream, &t2, &snap("dirty"), 1, 24, &policy);
    assert_eq!(plan, StopPlan::Materialize { source: PendingSource::Inherited });
    assert!(m.pending.is_none());
    assert_eq!(m.generation, 2);
}

#[test]
fn turn_local_changes_materialize_by_file_threshold() {
    let policy = materialization_policy(9, 1, 20);
    let stream = compute_stream_identity(b"/repo", &branch_head());
    let mut m = bootstrapped(&stream, &policy, "clean");
    session_start_update(&mut m, &snap("clean"), "s1", &branch_head(), 10);

    let t1 = baseline_turn("s1".into(), "t1".into(), &stream, m.anchor.policy_epoch.clone(), 11, &snap("clean"), &m);
    let plan = checkpoint(&mut m, &stream, &t1, &snap("edited"), 1, 12, &policy);
    assert_eq!(plan, StopPlan::Materialize { source: PendingSource::TurnLocal });
    assert_eq!(m.generation, 2);
}

#[test]
fn age_threshold_uses_test_clock_override() {
    let policy = materialization_policy(9, 9, 1);
    let stream = compute_stream_identity(b"/repo", &branch_head());
    let mut m = bootstrapped(&stream, &policy, "clean");

    session_start_update(&mut m, &snap("clean"), "s1", &branch_head(), 100);
    session_start_update(&mut m, &snap("dirty"), "s1", &branch_head(), 200);
    let t1 = baseline_turn("s1".into(), "t1".into(), &stream, m.anchor.policy_epoch.clone(), 240, &snap("dirty"), &m);
    let plan = checkpoint(&mut m, &stream, &t1, &snap("dirty"), 1, 250, &policy);
    assert_eq!(plan, StopPlan::Done { outcome: StopOutcome::Pending, source: Some(PendingSource::Inherited) });
    assert!(m.pending.is_some());

    let t2 = baseline_turn("s1".into(), "t2".into(), &stream, m.anchor.policy_epoch.clone(), 270, &snap("dirty"), &m);
    let plan = checkpoint(&mut m, &stream, &t2, &snap("dirty"), 1, 270, &policy);
    assert_eq!(plan, StopPlan::Materialize { source: PendingSource::Inherited });
    assert_eq!(m.generation, 2);
}

#[test]
fn stream_switch_discards_global_turn_and_detached_head_is_rejected() {
    let policy = Policy::default();
    let main = compute_stream_identity(b"/repo", &branch_head());
    let m = bootstrapped(&main, &policy, "clean");
    let t1 = baseline_turn("s1".into(), "t1".into(), &main, m.anchor.policy_epoch.clone(), 11, &snap("clean"), &m);

    let feature_head =
        HeadState { oid: Some("h1".to_string()), symref: Some("refs/heads/feature".to_string()), detached: false };
    let feature = compute_stream_identity(b"/repo", &feature_head);
    assert_ne!(feature.stream_id, main.stream_id);
    assert_eq!(turn_gate(&t1, &feature.stream_id, &m.anchor.policy_epoch), Some("stream-changed"));

    let detached_head = HeadState { oid: Some("h1".to_string()), symref: None, detached: true };
    let detached = compute_stream_identity(b"/repo", &detached_head);
    assert!(detached.display_name.starts_with("detached:"));
    let reason = support_precheck(&policy, &detached_head, &RepoState::default()).unwrap();
    assert_eq!(reason, "detached-head-unsupported");
    assert!(matches!(
        hook_noop(5, &detached.stream_id, "session-start", reason),
        JournalEvent::HookNoop { reason, .. } if reason == "detached-head-unsupported"
    ));
}

#[test]
fn policy_epoch_change_creates_new_anchor_epoch_without_stream_change() {
    let before_policy = Policy::default();
    let stream = compute_stream_identity(b"/repo", &branch_head());
    let before = bootstrapped(&stream, &before_policy, "clean");

    let mut after_policy = Policy::default();
    after_policy.owned.includes = vec!["README.md".to_string()];
    after_policy.owned.exclude = vec![":(exclude).git".to_string(), ":(exclude).sprocket".to_string()];
    let after_epoch = after_policy.policy_epoch();
    assert_ne!(after_epoch.0, before.anchor.policy_epoch);
    assert_eq!(
        init_decision(&Some(before.clone()), &after_epoch),
        InitDecision::Bootstrap { generation: before.generation + 1, epoch_changed: true }
    );
    assert_eq!(compute_stream_identity(b"/repo", &branch_head()).stream_id, before.stream.stream_id);
}

#[test]
fn runtime_keys_are_encoded() {
    let decode = |key: &str| {
        let encoded = key.strip_prefix("k-").unwrap_or(key);
        String::from_utf8(base64::engine::general_purpose::URL_SAFE_NO_PAD.decode(encoded).unwrap()).unwrap()
    };
    let layout = RuntimeLayout::from_root(b"/repo/.git/sprocket".to_vec());
    let stores = Stores::for_stream(layout, "abc");
    let path = String::from_utf8(stores.turns.path("../session id", "turn/../$ weird")).unwrap();
    let rest = path.strip_prefix("/repo/.git/sprocket/turns/").unwrap();
    let (session_key, file) = rest.split_once('/').unwrap();
    let turn_key = file.strip_suffix(".json").unwrap();
    assert!(!turn_key.contains('/'));
    assert_eq!(decode(session_key), "../session id");
    assert_eq!(decode(turn_key), "turn/../$ weird");
}

#[test]
fn hidden_only_mode_does_not_promote() {
    let policy = Policy::default();
    assert!(policy.hidden_only_mode());
    assert_eq!(support_precheck(&policy, &branch_head(), &RepoState::default()), None);
    assert!(matches!(
        maybe_promote_visible(),
        PromotionOutcome::Skipped(reason) if reason == "promotion-disabled-by-safety-envelope"
    ));
}

#[test]
fn promotion_modes_are_disabled_by_safety_envelope() {
    let mut policy = materialization_policy(2, 1, 20);
    policy.checkpoint.mode = CheckpointMode::HiddenThenPromote;
    policy.promotion.enabled = true;
    policy.promotion.validators = vec!["false".to_string()];
    let stream = compute_stream_identity(b"/repo", &branch_head());
    let reason = support_precheck(&policy, &branch_head(), &RepoState::default()).unwrap();
    assert_eq!(reason, "checkpoint-mode-unsupported");
    assert!(matches!(
        hook_noop(5, &stream.stream_id, "session-start", reason),
        JournalEvent::HookNoop { hook, reason, .. } if hook == "session-start" && reason == "checkpoint-mode-unsupported"
    ));
    assert!(matches!(stream.class, StreamClass::Branch { ref symref } if symref == "refs/heads/main"));
}

fn tree_entry(mode: u32, kind: &str, path: &str) -> TreeEntry {
    TreeEntry { mode, kind: kind.to_string(), oid: "o".to_string(), path: RepoPath::from_str(path) }
}

#[test]
fn cherry_pick_state_is_rejected_early() {
    let policy = Policy::default();
    let state = RepoState { cherry_pick_in_progress: true, ..RepoState::default() };
    let files = vec![tree_entry(0o100644, "blob", "src/lib.rs")];
    assert_eq!(repo_support_reason(&policy, &branch_head(), &state, &files, false), Some("cherry-pick-in-progress"));
}

#[test]
fn gitlinks_are_rejected_early() {
    let policy = Policy::default();
    let entries = vec![
        tree_entry(0o100644, "blob", "src/lib.rs"),
        tree_entry(0o100644, "blob", ".gitmodules"),
        tree_entry(0o160000, "commit", "vendor/submodule"),
    ];
    let clean = RepoState::default();
    assert_eq!(repo_support_reason(&policy, &branch_head(), &clean, &entries, false), Some("gitlinks-unsupported"));
    assert_eq!(repo_support_reason(&policy, &branch_head(), &clean, &entries[..2], false), None);
}

#[test]
fn gitattributes_repo_is_rejected_early() {
    let policy = Policy::default();
    let files = vec![tree_entry(0o100644, "blob", "src/lib.rs")];
    let clean = RepoState::default();
    assert_eq!(repo_support_reason(&policy, &branch_head(), &clean, &files, true), Some("gitattributes-unsupported"));
    let sparse = RepoState { sparse_checkout: true, ..RepoState::default() };
    assert_eq!(repo_support_reason(&policy, &branch_head(), &sparse, &files, true), Some("sparse-checkout-unsupported"));
}

#[test]
fn lock_contention_is_journaled_and_noops() {
    let stream = compute_stream_identity(b"/repo", &branch_head());
    assert!(matches!(
        journal_lock_busy(&stream, "checkpoint", 7),
        JournalEvent::HookNoop { ts: 7, hook, reason, .. } if hook == "checkpoint" && reason == "lock-busy"
    ));
}

#[test]
fn sparse_checkout_noops_before_mutation() {
    let policy = Policy::default();
    let sparse = sprocket::gitparse::config_is_true(b"true\n");
    let state = RepoState { sparse_checkout: sparse, ..RepoState::default() };
    assert_eq!(support_precheck(&policy, &branch_head(), &state), Some("sparse-checkout-unsupported"));
    assert!(!sprocket::gitparse::config_is_true(b"false\n"));
}

#[test]
fn symlink_and_executable_bit_are_observed() {
    let link_mode = sprocket::engine::repair::worktree_mode(true, false, 0o777).unwrap();
    let exec_mode = sprocket::engine::repair::worktree_mode(false, true, 0o755).unwrap();
    assert_eq!(link_mode, 0o120000);
    assert_eq!(exec_mode, 0o100755);
    let entry = |path: &str, mode: u32| sprocket::domain::manifest::StrictEntry {
        path: RepoPath::from_str(path),
        mode,
        observed_digest: format!("d-{path}"),
        git_oid: format!("o-{path}"),
    };
    let snapshot =
        sprocket::engine::repair::snapshot_of_entries(vec![entry("link.txt", link_mode), entry("bin/tool.sh", exec_mode)]);
    let mode_of = |path: &str| snapshot.entries.iter().find(|e| e.path == RepoPath::from_str(path)).unwrap().mode;
    assert_eq!(mode_of("link.txt"), 0o120000);
    assert_eq!(mode_of("bin/tool.sh"), 0o100755);
}

#[test]
fn excluded_paths_are_omitted_from_snapshots() {
    let policy = Policy::default();
    let present = vec![RepoPath::from_str("src/lib.rs"), RepoPath::from_str("node_modules/pkg/index.js")];
    let owned = sprocket::engine::materialize::owned_paths_only(&policy, present);
    assert_eq!(owned, vec![RepoPath::from_str("src/lib.rs")]);
}

fn prepared(commit: &str, previous: &str) -> sprocket::domain::intent::CheckpointIntent {
    let stream = compute_stream_identity(b"/repo", &branch_head());
    sprocket::engine::init_stream::prepared_intent(
        "i1".to_string(),
        10,
        &stream,
        commit,
        Some(previous),
        &snap("edited"),
        "policy:1",
    )
}

#[test]
fn fail_after_prepared_is_recovered_as_aborted() {
    // The process stopped after writing the prepared intent; the hidden ref still holds c1.
    let log = vec![prepared("c2", "c1")];
    let recovered = sprocket::engine::repair::reconcile_latest_intent(&log, Some("c1"), 20).unwrap();
    assert_eq!(recovered.phase, sprocket::domain::intent::IntentPhase::Aborted);
    assert_eq!(recovered.checkpoint_commit_oid, "c2");
}

#[test]
fn fail_after_cache_save_recovers_by_only_appending_finalize() {
    // The ref moved and the stream state was saved with c2 as anchor; only the finalized
    // record is missing.
    let policy = Policy::default();
    let stream = compute_stream_identity(b"/repo", &branch_head());
    let mut m = bootstrapped(&stream, &policy, "clean");
    advance_anchor(&mut m, "c2", &snap("edited"), &stream, &branch_head(), 15);
    let first = prepared("c2", "c1");
    let mut log = vec![first.clone(), first.with_phase(sprocket::domain::intent::IntentPhase::RefUpdated, 12)];
    assert!(sprocket::engine::repair::reconcile_latest_intent(&log, Some("c2"), 20).is_none());
    let fin = sprocket::engine::repair::finalize_latest_intent_if_needed(&log, &m, 20).unwrap();
    assert_eq!(fin.phase, sprocket::domain::intent::IntentPhase::Finalized);
    log.push(fin);
    assert!(sprocket::engine::repair::finalize_latest_intent_if_needed(&log, &m, 21).is_none());
    let finalized = log
        .iter()
        .filter(|i| i.checkpoint_commit_oid == "c2" && i.phase == sprocket::domain::intent::IntentPhase::Finalized)
        .count();
    assert_eq!(finalized, 1);
    assert_eq!(m.generation, 2);
}

#[test]
fn distinct_sessions_get_distinct_turn_directories() {
    let layout = RuntimeLayout::from_root(b"/repo/.git/sprocket".to_vec());
    let stores = Stores::for_stream(layout, "abc");
    let a = stores.turns.session_dir("../session id");
    let b = stores.turns.session_dir("../session-id");
    assert_ne!(a, b);
    for dir in [&a, &b] {
        let name = dir.strip_prefix(b"/repo/.git/sprocket/turns/".as_slice()).unwrap();
        assert!(name.starts_with(b"k-"));
        assert!(!name.contains(&b'/'));
    }
}

#[test]
fn first_session_start_creates_bootstrap_hidden_anchor() {
    let policy = Policy::default();
    let epoch = policy.policy_epoch();
    let head = branch_head();
    let stream = compute_stream_identity(b"/repo", &head);
    // No hidden ref yet: a first anchor at generation 1.
    let generation = match init_decision(&None, &epoch) {
        InitDecision::Bootstrap { generation, epoch_changed } => {
            assert!(!epoch_changed);
            generation
        }
        InitDecision::Keep => panic!("a new stream is bootstrapped"),
    };
    assert_eq!(generation, 1);
    let snapshot = snap("clean");
    let subject = sprocket::engine::init_stream::bootstrap_subject(&policy.checkpoint.default_area);
    let message = sprocket::engine::materialize::build_checkpoint_message(
        sprocket::engine::materialize::CheckpointMessageContext {
            subject: &subject,
            generation,
            source: PendingSource::Inherited,
            snapshot: &snapshot,
            head: &head,
            stream: &stream,
            policy_epoch: &epoch,
        },
    );
    // The hidden ref now points at the anchor commit; the stream state rebuilt from it.
    let metadata = sprocket::engine::materialize::parse_checkpoint_metadata(&message).unwrap();
    let hidden_oid = "anchor-commit";
    let manager = sprocket::engine::repair::build_manager_from_hidden_ref(sprocket::engine::repair::HiddenRefManagerInput {
        stream: &stream,
        commit_oid: hidden_oid,
        generation: metadata.generation,
        policy_epoch: &metadata.policy_epoch,
        stream_class: &metadata.stream_class,
        observed_head_oid: &metadata.observed_head_oid,
        observed_head_ref: &metadata.observed_head_ref,
        observed_fingerprint: metadata.observed_fingerprint.clone(),
        now: 5,
        snapshot: &snapshot,
    });
    assert_eq!(manager.generation, 1);
    assert_eq!(manager.anchor.checkpoint_commit_oid, hidden_oid);
    assert!(manager.pending.is_none());
}

#[test]
fn fail_after_turn_delete_keeps_anchor_valid() {
    // The checkpoint moved the hidden ref to c2, saved the state and deleted the turn, then
    // stopped before finalizing. The next session start rebuilds from the ref and keeps the
    // cached state, which already names c2 at generation 2.
    let policy = Policy::default();
    let stream = compute_stream_identity(b"/repo", &branch_head());
    let mut cached = bootstrapped(&stream, &policy, "clean");
    advance_anchor(&mut cached, "c2", &snap("edited"), &stream, &branch_head(), 15);
    let rebuilt = sprocket::engine::repair::build_manager_from_hidden_ref(sprocket::engine::repair::HiddenRefManagerInput {
        stream: &stream,
        commit_oid: "c2",
        generation: 2,
        policy_epoch: &cached.anchor.policy_epoch,
        stream_class: &stream.class,
        observed_head_oid: &Some("h1".to_string()),
        observed_head_ref: &Some("refs/heads/main".to_string()),
        observed_fingerprint: None,
        now: 20,
        snapshot: &snap("edited"),
    });
    let refresh = sprocket::engine::repair::refresh_cached_manager(Some(cached), rebuilt, false, &stream.stream_id, "c2", 20);
    assert!(refresh.recovery.is_none());
    assert_eq!(refresh.manager.anchor.checkpoint_commit_oid, "c2");
    assert_eq!(refresh.manager.generation, 2);
}
