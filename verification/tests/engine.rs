use sprocket::domain::decision::{classify, Decision, NoopReason};
use sprocket::domain::intent::{CheckpointIntent, IntentPhase};
use sprocket::domain::journal::JournalEvent;
use sprocket::domain::manager::{AnchorState, ManagerState, PendingSource};
use sprocket::domain::manifest::{StrictEntry, StrictSnapshot};
use sprocket::domain::policy::{CheckpointMode, Policy, PolicyEpoch};
use sprocket::domain::repopath::RepoPath;
use sprocket::domain::session::{HeadState, RepoState, StreamClass, StreamIdentity};
use sprocket::domain::turn::TurnState;
use sprocket::engine::hooks::{baseline_event, baseline_turn, maybe_promote_visible, session_start_update, PromotionOutcome};
use sprocket::engine::init_stream::{bootstrap_subject, init_decision, new_prepared_intent, prepared_intent, InitDecision};
use sprocket::engine::materialize::{
    build_checkpoint_message, checkpoint_parents, deleted_head_paths, owned_paths_only, parse_checkpoint_metadata,
    CheckpointMessageContext, MetadataError,
};
use sprocket::engine::repair::{
    build_manager_from_hidden_ref, cache_is_stale, content_digest, finalize_latest_intent_if_needed, refresh_cached_manager,
    owned_blob_entries, policy_epoch_changed, reconcile_latest_intent, snapshot_of_entries, strict_entry_from_tree,
    HiddenRefManagerInput, TreeEntry,
};
use sprocket::engine::stop::{
    advance_anchor, age_seconds, last_seen, outcome_word, settle_decision, stop_event, stop_input, turn_gate,
    StopOutcome, StopPlan,
};
use sprocket::engine::support::{
    has_owned_gitlink, invalid_policy_event, journal_lock_busy, support_precheck, walk_step, WalkStep,
};
use sprocket::domain::ids::hash_hex;
use sprocket::engine::repair::worktree_mode;

fn stream() -> StreamIdentity {
    StreamIdentity {
        worktree_id: "w".to_string(),
        stream_id: "s".to_string(),
        hidden_ref: "refs/sprocket/checkpoints/v2/w/s".to_string(),
        display_name: "refs/heads/main".to_string(),
        class: StreamClass::Branch { symref: "refs/heads/main".to_string() },
    }
}

fn head() -> HeadState {
    HeadState { oid: Some("h1".to_string()), symref: Some("refs/heads/main".to_string()), detached: false }
}

fn snap(id: &str) -> StrictSnapshot {
    StrictSnapshot {
        materialized_fingerprint: id.to_string(),
        observed_fingerprint: Some(format!("obs-{id}")),
        manifest_id: format!("m-{id}"),
        entries: Vec::new(),
    }
}

fn manager(anchor: &str) -> ManagerState {
    ManagerState {
        version: 3,
        stream: stream(),
        generation: 4,
        anchor: AnchorState {
            checkpoint_commit_oid: "c4".to_string(),
            manifest_id: format!("m-{anchor}"),
            materialized_fingerprint: anchor.to_string(),
            observed_fingerprint: None,
            policy_epoch: "policy:1".to_string(),
            stream_class: StreamClass::Branch { symref: "refs/heads/main".to_string() },
            observed_head_oid: Some("h1".to_string()),
            observed_head_ref: Some("refs/heads/main".to_string()),
            materialized_at: 1,
        },
        pending: None,
        last_seen: None,
        active_sessions: Vec::new(),
    }
}

fn turn_state(stream_id: &str, epoch: &str) -> TurnState {
    TurnState {
        version: 3,
        session_id: "s1".to_string(),
        turn_id: "t1".to_string(),
        stream_id_at_start: stream_id.to_string(),
        stream_class_at_start: StreamClass::DetachedHead,
        policy_epoch_at_start: epoch.to_string(),
        started_at: 5,
        baseline_materialized_fingerprint: "base".to_string(),
        baseline_manifest_id: "m-base".to_string(),
        anchor_materialized_fingerprint_at_start: "anchor".to_string(),
        anchor_manifest_id_at_start: "m-anchor".to_string(),
    }
}

fn intent(phase: IntentPhase, oid: &str) -> CheckpointIntent {
    CheckpointIntent {
        version: 1,
        ts: 1,
        intent_id: "i".to_string(),
        stream_id: "s".to_string(),
        hidden_ref: "refs/x".to_string(),
        checkpoint_commit_oid: oid.to_string(),
        previous_hidden_oid: None,
        manifest_id: "m".to_string(),
        materialized_fingerprint: "f".to_string(),
        observed_fingerprint: None,
        policy_epoch: "policy:1".to_string(),
        stream_class: StreamClass::DetachedHead,
        phase,
    }
}

#[test]
fn checkpoint_message_lists_its_footers() {
    let snapshot = snap("blake3:m");
    let h = head();
    let s = stream();
    let epoch = PolicyEpoch("policy:abc".to_string());
    let msg = build_checkpoint_message(CheckpointMessageContext {
        subject: "checkpoint(core): save current work [auto]",
        generation: 7,
        source: PendingSource::Mixed,
        snapshot: &snapshot,
        head: &h,
        stream: &s,
        policy_epoch: &epoch,
    });
    assert_eq!(
        msg,
        "checkpoint(core): save current work [auto]\n\n\
         Sprocket-Generation: 7\n\
         Sprocket-Source: Mixed\n\
         Sprocket-Policy-Epoch: policy:abc\n\
         Sprocket-Stream-Class: branch:refs/heads/main\n\
         Sprocket-Observed-Head-Ref: refs/heads/main\n\
         Sprocket-Observed-Head-Oid: h1\n\
         Sprocket-Materialized-Fingerprint: blake3:m\n\
         Sprocket-Observed-Fingerprint: obs-blake3:m\n\
         Sprocket-Stream: refs/heads/main\n\
         Sprocket-Worktree: w\n"
    );
}

#[test]
fn checkpoint_message_reads_back() {
    let mut snapshot = snap("blake3:m");
    snapshot.observed_fingerprint = None;
    let h = HeadState { oid: None, symref: None, detached: false };
    let mut s = stream();
    s.class = StreamClass::DetachedHead;
    let epoch = PolicyEpoch("policy:abc".to_string());
    let msg = build_checkpoint_message(CheckpointMessageContext {
        subject: "subject",
        generation: 12,
        source: PendingSource::TurnLocal,
        snapshot: &snapshot,
        head: &h,
        stream: &s,
        policy_epoch: &epoch,
    });
    let meta = parse_checkpoint_metadata(&msg).unwrap();
    assert_eq!(meta.generation, 12);
    assert_eq!(meta.policy_epoch, "policy:abc");
    assert!(matches!(meta.stream_class, StreamClass::DetachedHead));
    assert_eq!(meta.observed_head_ref, None);
    assert_eq!(meta.observed_head_oid, None);
    assert_eq!(meta.materialized_fingerprint, "blake3:m");
    assert_eq!(meta.observed_fingerprint, None);
}

#[test]
fn checkpoint_metadata_errors() {
    assert_eq!(
        parse_checkpoint_metadata("subject\n").unwrap_err(),
        MetadataError::MissingFooter("Sprocket-Generation".to_string())
    );
    assert_eq!(
        parse_checkpoint_metadata("s\n\nSprocket-Generation: seven\n").unwrap_err(),
        MetadataError::InvalidGeneration("seven".to_string())
    );
    assert_eq!(
        parse_checkpoint_metadata("s\n\nSprocket-Generation: 1\n").unwrap_err(),
        MetadataError::MissingFooter("Sprocket-Policy-Epoch".to_string())
    );
    assert_eq!(
        parse_checkpoint_metadata("s\n\nSprocket-Generation: 1\nSprocket-Policy-Epoch: p\nSprocket-Stream-Class: tag:v1\n")
            .unwrap_err(),
        MetadataError::UnsupportedStreamClass("tag:v1".to_string())
    );
    assert_eq!(
        parse_checkpoint_metadata(
            "s\n\nSprocket-Generation: 1\nSprocket-Policy-Epoch: p\nSprocket-Stream-Class: detached_head\n"
        )
        .unwrap_err(),
        MetadataError::MissingFooter("Sprocket-Materialized-Fingerprint".to_string())
    );
}

#[test]
fn init_decision_bootstraps_new_streams_and_new_epochs() {
    let epoch = PolicyEpoch("policy:1".to_string());
    assert_eq!(init_decision(&None, &epoch), InitDecision::Bootstrap { generation: 1, epoch_changed: false });
    assert_eq!(init_decision(&Some(manager("a")), &epoch), InitDecision::Keep);
    assert_eq!(
        init_decision(&Some(manager("a")), &PolicyEpoch("policy:2".to_string())),
        InitDecision::Bootstrap { generation: 5, epoch_changed: true }
    );
    assert!(policy_epoch_changed(&manager("a"), &PolicyEpoch("policy:2".to_string())));
    assert!(!policy_epoch_changed(&manager("a"), &epoch));
}

#[test]
fn bootstrap_subject_names_the_area() {
    assert_eq!(bootstrap_subject("core"), "checkpoint(core): bootstrap anchor [auto]");
}

#[test]
fn prepared_intent_records_the_move() {
    let s = stream();
    let snapshot = snap("f");
    let i = prepared_intent("intent-1".to_string(), 9, &s, "c5", Some("c4"), &snapshot, "policy:1");
    assert_eq!(i.phase, IntentPhase::Prepared);
    assert_eq!(i.ts, 9);
    assert_eq!(i.hidden_ref, s.hidden_ref);
    assert_eq!(i.checkpoint_commit_oid, "c5");
    assert_eq!(i.previous_hidden_oid.as_deref(), Some("c4"));
    assert_eq!(i.manifest_id, "m-f");
    assert_eq!(i.observed_fingerprint.as_deref(), Some("obs-f"));
}

#[test]
fn fresh_intents_get_random_uuid_ids() {
    let s = stream();
    let snapshot = snap("f");
    let a = new_prepared_intent(9, &s, "c5", None, &snapshot, "policy:1");
    let b = new_prepared_intent(9, &s, "c5", None, &snapshot, "policy:1");
    assert_ne!(a.intent_id, b.intent_id);
    for id in [&a.intent_id, &b.intent_id] {
        let chars: Vec<char> = id.chars().collect();
        assert_eq!(chars.len(), 36);
        for (i, c) in chars.iter().enumerate() {
            if i == 8 || i == 13 || i == 18 || i == 23 {
                assert_eq!(*c, '-');
            } else {
                assert!(c.is_ascii_digit() || ('a'..='f').contains(c));
            }
        }
        assert_eq!(chars[14], '4');
        assert!(matches!(chars[19], '8' | '9' | 'a' | 'b'));
    }
    assert_eq!(a.previous_hidden_oid, None);
    assert_eq!(a.checkpoint_commit_oid, "c5");
}

#[test]
fn turn_gate_checks_stream_then_epoch() {
    assert_eq!(turn_gate(&turn_state("s", "policy:1"), "s", "policy:1"), None);
    assert_eq!(turn_gate(&turn_state("other", "policy:0"), "s", "policy:1"), Some("stream-changed"));
    assert_eq!(turn_gate(&turn_state("s", "policy:0"), "s", "policy:1"), Some("policy-epoch-changed"));
}

#[test]
fn stop_event_records_the_outcome() {
    let t = turn_state("s", "p");
    match stop_event(11, &t, "s", outcome_word(StopOutcome::Pending), Some(PendingSource::TurnLocal), None) {
        JournalEvent::StopDecision { ts, session_id, turn_id, stream_id, outcome, source, commit_oid } => {
            assert_eq!(ts, 11);
            assert_eq!(session_id, "s1");
            assert_eq!(turn_id, "t1");
            assert_eq!(stream_id, "s");
            assert_eq!(outcome, "pending");
            assert_eq!(source, Some(PendingSource::TurnLocal));
            assert_eq!(commit_oid, None);
        }
        other => panic!("unexpected {:?}", other),
    }
    assert_eq!(outcome_word(StopOutcome::MatchesAnchor), "matches-anchor");
    assert_eq!(age_seconds(20), 1200);
}

#[test]
fn stop_input_takes_fingerprints_from_turn_and_anchor() {
    let s = stream();
    let t = turn_state("s", "p");
    let m = manager("anchor");
    let snapshot = snap("now");
    let input = stop_input(&s, &t, &m, &snapshot, 3, 50, 2, 4, 1200);
    assert_eq!(input.stream_id_now, "s");
    assert_eq!(input.stream_id_at_start, "s");
    assert_eq!(input.anchor_fingerprint, "anchor");
    assert_eq!(input.turn_baseline_fingerprint, "base");
    assert_eq!(input.anchor_fingerprint_at_start, "anchor");
    assert_eq!(input.current_fingerprint, "now");
    assert_eq!(input.global_changed_paths, 3);
    assert_eq!(input.pending_turn_count, 0);
    assert_eq!(input.pending_first_seen_at, None);
    assert_eq!(input.age_seconds, 1200);
}

#[test]
fn settle_decision_records_pending_and_forgets_it_on_match() {
    let mut m = manager("anchor");
    let plan = settle_decision(
        &mut m,
        &Decision::RecordPending { source: PendingSource::TurnLocal, changed_paths: 1 },
        "s1",
        &snap("dirty"),
        &head(),
        20,
    );
    assert_eq!(plan, StopPlan::Done { outcome: StopOutcome::Pending, source: Some(PendingSource::TurnLocal) });
    let pending = m.pending.clone().unwrap();
    assert_eq!(pending.pending_turn_count, 1);
    assert_eq!(pending.touched_sessions, vec!["s1".to_string()]);
    assert_eq!(m.last_seen.as_ref().unwrap().seen_at, 20);

    let plan = settle_decision(&mut m, &Decision::Noop(NoopReason::MatchesAnchor), "s1", &snap("anchor"), &head(), 30);
    assert_eq!(plan, StopPlan::Done { outcome: StopOutcome::MatchesAnchor, source: None });
    assert!(m.pending.is_none());
    assert_eq!(m.last_seen.as_ref().unwrap().materialized_fingerprint, "anchor");

    let before_generation = m.generation;
    let plan = settle_decision(
        &mut m,
        &Decision::Materialize { source: PendingSource::Mixed, changed_paths: 4 },
        "s1",
        &snap("x"),
        &head(),
        40,
    );
    assert_eq!(plan, StopPlan::Materialize { source: PendingSource::Mixed });
    assert_eq!(m.generation, before_generation);
    assert_eq!(m.last_seen.as_ref().unwrap().seen_at, 30);
}

#[test]
fn materialized_snapshot_matches_the_new_anchor() {
    let mut m = manager("anchor");
    let s = stream();
    let snapshot = snap("fresh");
    advance_anchor(&mut m, "c5", &snapshot, &s, &head(), 60);
    assert_eq!(m.generation, 5);
    assert_eq!(m.anchor.checkpoint_commit_oid, "c5");
    assert_eq!(m.anchor.materialized_fingerprint, "fresh");
    assert_eq!(m.anchor.policy_epoch, "policy:1");
    assert!(m.pending.is_none());
    let t = turn_state("s", "policy:1");
    let input = stop_input(&s, &t, &m, &snapshot, 0, 61, 2, 4, 1200);
    assert_eq!(classify(&input), Decision::Noop(NoopReason::MatchesAnchor));
}

#[test]
fn last_seen_observes_snapshot_and_head() {
    let o = last_seen(&snap("x"), 8, &head());
    assert_eq!(o.materialized_fingerprint, "x");
    assert_eq!(o.manifest_id, "m-x");
    assert_eq!(o.observed_fingerprint.as_deref(), Some("obs-x"));
    assert_eq!(o.observed_head_oid.as_deref(), Some("h1"));
    assert_eq!(o.seen_at, 8);
}

#[test]
fn support_precheck_reports_the_first_problem() {
    let policy = Policy::default();
    let clean = RepoState::default();
    assert_eq!(support_precheck(&policy, &head(), &clean), None);
    let sparse = RepoState { sparse_checkout: true, ..RepoState::default() };
    assert_eq!(support_precheck(&policy, &head(), &sparse), Some("sparse-checkout-unsupported"));
    let merging = RepoState { merge_in_progress: true, sparse_checkout: true, ..RepoState::default() };
    assert_eq!(support_precheck(&policy, &head(), &merging), Some("merge-in-progress"));
    let detached = HeadState { detached: true, ..head() };
    assert_eq!(support_precheck(&policy, &detached, &merging), Some("detached-head-unsupported"));
    let mut visible = Policy::default();
    visible.checkpoint.mode = CheckpointMode::VisibleDirect;
    assert_eq!(support_precheck(&visible, &detached, &merging), Some("checkpoint-mode-unsupported"));
}

#[test]
fn gitlinks_and_gitattributes_are_found() {
    let policy = Policy::default();
    let link = TreeEntry { mode: 0o160000, kind: "commit".to_string(), oid: "x".to_string(), path: RepoPath::from_str("vendor/sub") };
    let blob = TreeEntry { mode: 0o100644, kind: "blob".to_string(), oid: "y".to_string(), path: RepoPath::from_str("a.txt") };
    let ignored_link =
        TreeEntry { mode: 0o160000, kind: "commit".to_string(), oid: "z".to_string(), path: RepoPath::from_str("node_modules/x") };
    assert!(has_owned_gitlink(&policy, &[blob.clone(), link]));
    assert!(!has_owned_gitlink(&policy, &[blob, ignored_link]));
    assert_eq!(walk_step(b".git", true, false), WalkStep::Skip);
    assert_eq!(walk_step(b".sprocket", true, false), WalkStep::Skip);
    assert_eq!(walk_step(b"src", true, false), WalkStep::Descend);
    assert_eq!(walk_step(b".gitattributes", false, true), WalkStep::Found);
    assert_eq!(walk_step(b"README.md", false, true), WalkStep::Skip);
}

#[test]
fn journal_events_of_refused_hooks() {
    let s = stream();
    match journal_lock_busy(&s, "session-start", 4) {
        JournalEvent::HookNoop { ts, stream_id, hook, reason } => {
            assert_eq!((ts, stream_id.as_str(), hook.as_str(), reason.as_str()), (4, "s", "session-start", "lock-busy"));
        }
        other => panic!("unexpected {:?}", other),
    }
    match invalid_policy_event(&s, "checkpoint", 5, "bad toml") {
        JournalEvent::HookError { reason, .. } => assert_eq!(reason, "invalid-policy: bad toml"),
        other => panic!("unexpected {:?}", other),
    }
}

#[test]
fn manager_is_rebuilt_from_hidden_ref_metadata() {
    let s = stream();
    let snapshot = snap("f");
    let m = build_manager_from_hidden_ref(HiddenRefManagerInput {
        stream: &s,
        commit_oid: "c9",
        generation: 9,
        policy_epoch: "policy:2",
        stream_class: &StreamClass::DetachedHead,
        observed_head_oid: &Some("h".to_string()),
        observed_head_ref: &None,
        observed_fingerprint: Some("obs".to_string()),
        now: 70,
        snapshot: &snapshot,
    });
    assert_eq!(m.generation, 9);
    assert_eq!(m.anchor.checkpoint_commit_oid, "c9");
    assert_eq!(m.anchor.manifest_id, "m-f");
    assert_eq!(m.anchor.materialized_fingerprint, "f");
    assert_eq!(m.anchor.policy_epoch, "policy:2");
    assert!(m.pending.is_none());
    assert!(m.active_sessions.is_empty());
    assert!(cache_is_stale(&None, &m));
    assert!(!cache_is_stale(&Some(m.clone()), &m));
    assert!(cache_is_stale(&Some(manager("f")), &m));

    // The cached state is kept while it agrees with the hidden ref.
    let mut cached = m.clone();
    cached.active_sessions = vec!["s1".to_string()];
    let kept = refresh_cached_manager(Some(cached.clone()), m.clone(), false, "s", "c9", 70);
    assert_eq!(kept.manager.active_sessions, vec!["s1".to_string()]);
    assert!(kept.recovery.is_none());
    // A missing manifest keeps the cache but journals a recovery.
    let healed = refresh_cached_manager(Some(cached), m.clone(), true, "s", "c9", 70);
    assert_eq!(healed.manager.active_sessions, vec!["s1".to_string()]);
    assert!(healed.recovery.is_some());
    // A stale cache is replaced by the rebuilt state.
    let replaced = refresh_cached_manager(Some(manager("f")), m.clone(), false, "s", "c9", 71);
    assert_eq!(replaced.manager.anchor.checkpoint_commit_oid, "c9");
    match replaced.recovery {
        Some(JournalEvent::Recovery { ts, stream_id, reason, commit_oid }) => {
            assert_eq!(ts, 71);
            assert_eq!(stream_id, "s");
            assert_eq!(reason, "rebuilt-caches-from-hidden-ref");
            assert_eq!(commit_oid.as_deref(), Some("c9"));
        }
        other => panic!("unexpected {:?}", other),
    }
    assert!(refresh_cached_manager(None, m, false, "s", "c9", 72).recovery.is_some());
}

#[test]
fn prepared_intents_are_settled_by_the_ref() {
    assert!(reconcile_latest_intent(&[], Some("c"), 1).is_none());
    let updated = reconcile_latest_intent(&[intent(IntentPhase::Prepared, "c")], Some("c"), 5).unwrap();
    assert_eq!(updated.phase, IntentPhase::RefUpdated);
    assert_eq!(updated.ts, 5);
    let aborted = reconcile_latest_intent(&[intent(IntentPhase::Prepared, "c")], Some("d"), 5).unwrap();
    assert_eq!(aborted.phase, IntentPhase::Aborted);
    assert!(reconcile_latest_intent(&[intent(IntentPhase::Finalized, "c")], Some("d"), 5).is_none());

    let m = manager("a");
    let fin = finalize_latest_intent_if_needed(&[intent(IntentPhase::RefUpdated, "c4")], &m, 6).unwrap();
    assert_eq!(fin.phase, IntentPhase::Finalized);
    assert!(finalize_latest_intent_if_needed(&[intent(IntentPhase::Finalized, "c4")], &m, 6).is_none());
    assert!(finalize_latest_intent_if_needed(&[intent(IntentPhase::RefUpdated, "c3")], &m, 6).is_none());
}

#[test]
fn recovery_appends_each_record_once() {
    // The hidden ref moved to c4 before the process stopped; c4 is the rebuilt anchor.
    let m = manager("a");
    let mut log = vec![intent(IntentPhase::Prepared, "c4")];
    let settled = reconcile_latest_intent(&log, Some("c4"), 7).unwrap();
    assert_eq!(settled.phase, IntentPhase::RefUpdated);
    log.push(settled);
    assert!(reconcile_latest_intent(&log, Some("c4"), 8).is_none());
    let finalized = finalize_latest_intent_if_needed(&log, &m, 8).unwrap();
    assert_eq!(finalized.phase, IntentPhase::Finalized);
    log.push(finalized);
    assert!(reconcile_latest_intent(&log, Some("c4"), 9).is_none());
    assert!(finalize_latest_intent_if_needed(&log, &m, 9).is_none());
    assert_eq!(log.len(), 3);
}

#[test]
fn owned_tree_blobs_become_strict_entries() {
    let policy = Policy::default();
    let entries = vec![
        TreeEntry { mode: 0o100644, kind: "blob".to_string(), oid: "o1".to_string(), path: RepoPath::from_str("src/b.rs") },
        TreeEntry { mode: 0o160000, kind: "commit".to_string(), oid: "o2".to_string(), path: RepoPath::from_str("sub") },
        TreeEntry { mode: 0o100644, kind: "blob".to_string(), oid: "o3".to_string(), path: RepoPath::from_str("target/x") },
        TreeEntry { mode: 0o100755, kind: "blob".to_string(), oid: "o4".to_string(), path: RepoPath::from_str("src/a.sh") },
    ];
    let kept = owned_blob_entries(&policy, entries);
    assert_eq!(kept.len(), 2);
    assert_eq!(kept[0].oid, "o1");
    assert_eq!(kept[1].oid, "o4");
    assert_eq!(content_digest(b"hi"), format!("blake3:{}", hash_hex(b"hi")));
    let e = strict_entry_from_tree(kept[1].clone(), b"#!/bin/sh\n");
    assert_eq!(e.mode, 0o100755);
    assert_eq!(e.git_oid, "o4");
    assert_eq!(e.observed_digest, content_digest(b"#!/bin/sh\n"));
}

#[test]
fn empty_snapshot_fingerprints_no_files() {
    let e = sprocket::engine::session_commit::empty_snapshot();
    let expected = format!("blake3:{}", hash_hex(b""));
    assert_eq!(e.materialized_fingerprint, expected);
    assert_eq!(e.observed_fingerprint.as_deref(), Some(expected.as_str()));
    assert_eq!(e.manifest_id, expected);
    assert!(e.entries.is_empty());
    let built = snapshot_of_entries(Vec::new());
    assert_eq!(built.materialized_fingerprint, e.materialized_fingerprint);
    assert_eq!(built.manifest_id, e.manifest_id);
}

#[test]
fn snapshots_sort_entries_and_fingerprint_them() {
    let a = StrictEntry { path: RepoPath::from_str("b"), mode: 0o100644, observed_digest: "d1".into(), git_oid: "o1".into() };
    let b = StrictEntry { path: RepoPath::from_str("a"), mode: 0o100644, observed_digest: "d2".into(), git_oid: "o2".into() };
    let s1 = snapshot_of_entries(vec![a.clone(), b.clone()]);
    let s2 = snapshot_of_entries(vec![b, a.clone()]);
    assert_eq!(s1.entries[0].path, RepoPath::from_str("a"));
    assert_eq!(s1.materialized_fingerprint, s2.materialized_fingerprint);
    assert_eq!(s1.manifest_id, s1.materialized_fingerprint);
    assert!(s1.materialized_fingerprint.starts_with("blake3:"));
    assert_ne!(s1.observed_fingerprint.as_deref(), Some(s1.materialized_fingerprint.as_str()));
    let mut changed = a;
    changed.observed_digest = "d9".into();
    let s3 = snapshot_of_entries(vec![changed, s1.entries[0].clone()]);
    assert_eq!(s3.materialized_fingerprint, s1.materialized_fingerprint);
    assert_ne!(s3.observed_fingerprint, s1.observed_fingerprint);
}

#[test]
fn session_start_adopts_a_dirty_worktree() {
    let mut m = manager("anchor");
    session_start_update(&mut m, &snap("dirty"), "s1", &head(), 10);
    let p = m.pending.clone().unwrap();
    assert_eq!(p.source, PendingSource::Inherited);
    assert_eq!(p.latest_materialized_fingerprint, "dirty");
    assert_eq!(m.last_seen.as_ref().unwrap().seen_at, 10);
    session_start_update(&mut m, &snap("anchor"), "s1", &head(), 11);
    assert!(m.pending.is_none());
}

#[test]
fn baseline_turn_records_the_start_of_a_turn() {
    let s = stream();
    let m = manager("anchor");
    let t = baseline_turn("s1".to_string(), "t1".to_string(), &s, "policy:1".to_string(), 12, &snap("b"), &m);
    assert_eq!(t.stream_id_at_start, "s");
    assert_eq!(t.baseline_materialized_fingerprint, "b");
    assert_eq!(t.baseline_manifest_id, "m-b");
    assert_eq!(t.anchor_materialized_fingerprint_at_start, "anchor");
    assert_eq!(t.started_at, 12);
    match baseline_event(&t, 13) {
        JournalEvent::Baseline { ts, baseline_materialized_fingerprint, .. } => {
            assert_eq!(ts, 13);
            assert_eq!(baseline_materialized_fingerprint, "b");
        }
        other => panic!("unexpected {:?}", other),
    }
    assert!(matches!(maybe_promote_visible(), PromotionOutcome::Skipped(r) if r == "promotion-disabled-by-safety-envelope"));
}

#[test]
fn owned_and_deleted_paths_and_parents() {
    let policy = Policy::default();
    let paths = vec![RepoPath::from_str("src/a"), RepoPath::from_str("dist/x"), RepoPath::from_str("b")];
    assert_eq!(owned_paths_only(&policy, paths), vec![RepoPath::from_str("src/a"), RepoPath::from_str("b")]);
    let mut snapshot = snap("f");
    snapshot.entries.push(StrictEntry { path: RepoPath::from_str("kept"), mode: 0o100644, observed_digest: "d".into(), git_oid: "o".into() });
    let head_owned = vec![RepoPath::from_str("kept"), RepoPath::from_str("gone")];
    assert_eq!(deleted_head_paths(true, &head_owned, &snapshot), vec![RepoPath::from_str("gone")]);
    assert!(deleted_head_paths(false, &head_owned, &snapshot).is_empty());
    assert_eq!(checkpoint_parents(Some("prev"), Some("head")), vec!["prev".to_string()]);
    assert_eq!(checkpoint_parents(None, Some("head")), vec!["head".to_string()]);
    assert!(checkpoint_parents(None, None).is_empty());
}

#[test]
fn head_state_from_git_answers() {
    let h = sprocket::domain::session::head_state_of(Some("abc\n"), Some("refs/heads/main\n"));
    assert_eq!(h.oid.as_deref(), Some("abc"));
    assert_eq!(h.symref.as_deref(), Some("refs/heads/main"));
    assert!(!h.detached);
    let d = sprocket::domain::session::head_state_of(Some("abc\n"), None);
    assert!(d.detached);
    let u = sprocket::domain::session::head_state_of(None, Some("refs/heads/main\n"));
    assert!(!u.detached);
    assert_eq!(u.oid, None);
}

#[test]
fn worktree_modes() {
    assert_eq!(worktree_mode(true, false, 0o777), Some(0o120000));
    assert_eq!(worktree_mode(false, true, 0o644), Some(0o100644));
    assert_eq!(worktree_mode(false, true, 0o744), Some(0o100755));
    assert_eq!(worktree_mode(false, true, 0o601), Some(0o100755));
    assert_eq!(worktree_mode(false, false, 0o755), None);
}

#[test]
fn metadata_errors_have_messages() {
    assert_eq!(
        MetadataError::MissingFooter("Sprocket-Generation".to_string()).message(),
        "missing Sprocket-Generation footer"
    );
    assert_eq!(
        MetadataError::UnsupportedStreamClass("x".to_string()).message(),
        "unsupported Sprocket-Stream-Class footer: x"
    );
}
