use sprocket::domain::manifest::{StrictEntry, StrictSnapshot};
use sprocket::domain::repopath::RepoPath;
use sprocket::domain::session_tracker::{CommitBlockReason, PathClaimState, SessionTracker, SessionTrackerStatus};
use sprocket::engine::session_commit::{
    active_session_ids, build_commit_plan, create_or_refresh_tracker, mark_unsupported, sessions_touching_path,
    stable_session_id, update_tracker_from_turn, BuildCommitPlanInput, SessionActivity, TurnSnapshots,
};
use sprocket::reports::{reason_to_string, SessionCommitPlanReport, SessionStatusReport};

const HEAD: &str = "head-0";

fn lib(oid: &str) -> Vec<StrictEntry> {
    vec![StrictEntry {
        path: RepoPath::from_str("src/lib.rs"),
        mode: 0o100644,
        observed_digest: format!("blake3:{oid}"),
        git_oid: oid.to_string(),
    }]
}

fn snapshot(entries: Vec<StrictEntry>, id: &str) -> StrictSnapshot {
    StrictSnapshot {
        materialized_fingerprint: format!("blake3:{id}"),
        observed_fingerprint: None,
        manifest_id: id.to_string(),
        entries,
    }
}

fn start(session: &str) -> SessionTracker {
    create_or_refresh_tracker(None, Some(session), "stream", &Some(HEAD.to_string()), "m-head", "m-start").unwrap()
}

fn turn(tracker: &mut SessionTracker, id: &str, baseline: &str, current: &str, others: &[SessionTracker], now: i64) {
    let current_snapshot = snapshot(lib(current), current);
    let start_entries = lib("o0");
    update_tracker_from_turn(
        tracker,
        &TurnSnapshots {
            turn_id: id,
            baseline: &lib(baseline),
            current: &current_snapshot,
            start_head: &start_entries,
            epoch_start: &start_entries,
            other_trackers: others,
            now,
        },
    );
}

fn plan(tracker: &SessionTracker, current: &str, others: &[SessionTracker], now: i64) -> SessionCommitPlanReport {
    let p = build_commit_plan(BuildCommitPlanInput {
        tracker: Some(tracker),
        stream_id: "stream",
        head_oid: &Some(HEAD.to_string()),
        current_entries: &lib(current),
        epoch_start_entries: &lib("o0"),
        active_trackers: others,
        staged_changes_present: false,
        now,
        turn_threshold: 2,
        file_threshold: 4,
        age_seconds: 1200,
    });
    SessionCommitPlanReport::from_plan(&p)
}

#[test]
fn session_start_creates_tracker_and_checkpoint_marks_exclusive_paths() {
    let mut tracker = start("s1");
    assert_eq!(tracker.epoch, 1);
    assert!(tracker.touched_paths.is_empty());

    turn(&mut tracker, "t1", "o0", "o1", &[], 10);
    assert_eq!(tracker.turn_count_since_reset, 1);
    assert_eq!(tracker.touched_paths.len(), 1);
    assert_eq!(tracker.touched_paths[0].path, RepoPath::from_str("src/lib.rs"));
    assert_eq!(tracker.touched_paths[0].state.claim_state, PathClaimState::Exclusive);

    let report = plan(&tracker, "o1", &[], 20);
    assert!(!report.safe_to_commit);
    assert!(!report.thresholds_met);
    assert_eq!(report.eligible_paths, vec!["src/lib.rs".to_string()]);
}

#[test]
fn contended_paths_block_session_plan() {
    let mut s1 = start("s1");
    let mut s2 = start("s2");
    turn(&mut s1, "t1", "o0", "o1", &[], 120);
    turn(&mut s2, "t2", "o1", "o2", &[s1.clone()], 140);
    assert_eq!(s2.touched_paths[0].state.claim_state, PathClaimState::Contended);
    assert_eq!(s2.touched_paths[0].state.other_sessions, vec!["s1".to_string()]);
    assert_eq!(s2.status, SessionTrackerStatus::Blocked);

    let report = plan(&s2, "o2", &[s1], 150);
    assert!(!report.safe_to_commit);
    assert!(report.blocking_reasons.iter().any(|reason| reason == "path_contended"));
    assert_eq!(report.blocked_paths[0].path, "src/lib.rs");
}

#[test]
fn restored_paths_drop_out_of_the_final_candidate_set() {
    let mut tracker = start("s1");
    turn(&mut tracker, "t1", "o0", "o1", &[], 10);
    turn(&mut tracker, "t2", "o1", "o0", &[], 20);
    assert!(tracker.touched_paths.is_empty());
    let report = plan(&tracker, "o0", &[], 30);
    assert!(report.eligible_paths.is_empty());
}

#[test]
fn plan_is_safe_once_thresholds_are_met() {
    let mut tracker = start("s1");
    turn(&mut tracker, "t1", "o0", "o1", &[], 10);
    turn(&mut tracker, "t2", "o1", "o2", &[], 20);
    assert_eq!(tracker.turn_count_since_reset, 2);
    assert_eq!(tracker.first_dirty_at, Some(10));
    assert_eq!(tracker.last_dirty_at, Some(20));
    assert_eq!(tracker.touched_paths[0].state.first_turn_id, "t1");
    assert_eq!(tracker.touched_paths[0].state.last_turn_id, "t2");
    let report = plan(&tracker, "o2", &[], 30);
    assert!(report.thresholds_met);
    assert!(report.safe_to_commit);
    assert!(report.blocking_reasons.is_empty());
}

#[test]
fn plan_blocks_on_moved_head_staged_changes_and_interference() {
    let mut tracker = start("s1");
    turn(&mut tracker, "t1", "o0", "o1", &[], 10);
    turn(&mut tracker, "t2", "o1", "o2", &[], 20);
    let p = build_commit_plan(BuildCommitPlanInput {
        tracker: Some(&tracker),
        stream_id: "stream",
        head_oid: &Some("head-1".to_string()),
        current_entries: &lib("o3"),
        epoch_start_entries: &lib("o0"),
        active_trackers: &[],
        staged_changes_present: true,
        now: 30,
        turn_threshold: 2,
        file_threshold: 4,
        age_seconds: 1200,
    });
    assert!(!p.safe_to_commit);
    assert_eq!(
        p.blocking_reasons,
        vec![
            CommitBlockReason::HeadMoved,
            CommitBlockReason::StagedChangesPresent,
            CommitBlockReason::ExternalInterference
        ]
    );
    assert_eq!(p.blocked_paths.len(), 1);
    assert_eq!(p.blocked_paths[0].reasons, vec![CommitBlockReason::ExternalInterference]);
}

#[test]
fn plan_without_tracker_is_missing_tracker() {
    let p = build_commit_plan(BuildCommitPlanInput {
        tracker: None,
        stream_id: "stream",
        head_oid: &None,
        current_entries: &[],
        epoch_start_entries: &[],
        active_trackers: &[],
        staged_changes_present: false,
        now: 0,
        turn_threshold: 2,
        file_threshold: 4,
        age_seconds: 1200,
    });
    assert!(!p.safe_to_commit);
    assert_eq!(p.blocking_reasons, vec![CommitBlockReason::MissingTracker]);
    assert_eq!(p.stream_id, "stream");
}

#[test]
fn unsupported_repo_marks_the_plan_unsafe() {
    let mut tracker = start("s1");
    turn(&mut tracker, "t1", "o0", "o1", &[], 10);
    turn(&mut tracker, "t2", "o1", "o2", &[], 20);
    let mut p = build_commit_plan(BuildCommitPlanInput {
        tracker: Some(&tracker),
        stream_id: "stream",
        head_oid: &Some(HEAD.to_string()),
        current_entries: &lib("o2"),
        epoch_start_entries: &lib("o0"),
        active_trackers: &[],
        staged_changes_present: false,
        now: 30,
        turn_threshold: 2,
        file_threshold: 4,
        age_seconds: 1200,
    });
    assert!(p.safe_to_commit);
    mark_unsupported(&mut p);
    assert!(!p.safe_to_commit);
    assert_eq!(p.blocking_reasons, vec![CommitBlockReason::UnsupportedRepoState]);
}

#[test]
fn inherited_dirty_paths_are_not_claimed() {
    let mut tracker = start("s1");
    let current_snapshot = snapshot(lib("o2"), "o2");
    update_tracker_from_turn(
        &mut tracker,
        &TurnSnapshots {
            turn_id: "t1",
            baseline: &lib("o1"),
            current: &current_snapshot,
            start_head: &lib("o0"),
            epoch_start: &lib("o1"),
            other_trackers: &[],
            now: 10,
        },
    );
    assert_eq!(tracker.touched_paths[0].state.claim_state, PathClaimState::InheritedDirty);
    assert_eq!(tracker.status, SessionTrackerStatus::Blocked);
}

#[test]
fn unstable_session_ids_get_no_tracker() {
    assert!(!stable_session_id("session-current"));
    assert!(stable_session_id("s1"));
    assert!(create_or_refresh_tracker(None, Some("session-current"), "x", &None, "a", "b").is_none());
    assert!(create_or_refresh_tracker(None, None, "x", &None, "a", "b").is_none());
}

#[test]
fn refreshing_a_tracker_keeps_its_epoch_and_paths() {
    let mut tracker = start("s1");
    turn(&mut tracker, "t1", "o0", "o1", &[], 10);
    let refreshed =
        create_or_refresh_tracker(Some(tracker.clone()), Some("s1"), "stream-2", &None, "m-x", "m-now").unwrap();
    assert_eq!(refreshed.epoch, tracker.epoch);
    assert_eq!(refreshed.stream_id, "stream-2");
    assert_eq!(refreshed.last_seen_manifest_id, "m-now");
    assert_eq!(refreshed.epoch_start_worktree_manifest_id, "m-start");
    assert_eq!(refreshed.touched_paths.len(), 1);
}

#[test]
fn sessions_touching_path_lists_sorted_ids() {
    let mut a = start("b-session");
    let mut b = start("a-session");
    let c = start("c-session");
    turn(&mut a, "t", "o0", "o1", &[], 1);
    turn(&mut b, "t", "o0", "o1", &[], 1);
    let ids = sessions_touching_path(&[a, c, b], &RepoPath::from_str("src/lib.rs"));
    assert_eq!(ids, vec!["a-session".to_string(), "b-session".to_string()]);
}

#[test]
fn active_sessions_are_those_seen_within_two_hours() {
    let candidates = vec![
        SessionActivity { session_id: "z".to_string(), last_seen_at: Some(10_000) },
        SessionActivity { session_id: "old".to_string(), last_seen_at: Some(100) },
        SessionActivity { session_id: "a".to_string(), last_seen_at: Some(2_800) },
        SessionActivity { session_id: "unknown".to_string(), last_seen_at: None },
        SessionActivity { session_id: "z".to_string(), last_seen_at: Some(9_000) },
    ];
    assert_eq!(active_session_ids(&candidates, 10_000), vec!["a".to_string(), "z".to_string()]);
}

#[test]
fn reports_name_reasons_and_states() {
    assert_eq!(reason_to_string(&CommitBlockReason::PathContended), "path_contended");
    assert_eq!(reason_to_string(&CommitBlockReason::ThresholdsNotMet), "thresholds_not_met");
    let missing = SessionStatusReport::from_tracker(None);
    assert!(!missing.found);
    let mut tracker = start("s1");
    turn(&mut tracker, "t1", "o0", "o1", &[], 10);
    let r = SessionStatusReport::from_tracker(Some(&tracker));
    assert!(r.found);
    assert_eq!(r.session_id.as_deref(), Some("s1"));
    assert_eq!(r.epoch, Some(1));
    assert_eq!(r.status.as_deref(), Some("active"));
    assert_eq!(r.touched_paths[0].path, "src/lib.rs");
    assert_eq!(r.touched_paths[0].claim_state, "exclusive");
}

fn entry(path: &str, oid: &str) -> StrictEntry {
    StrictEntry {
        path: RepoPath::from_str(path),
        mode: 0o100644,
        observed_digest: format!("blake3:{oid}"),
        git_oid: oid.to_string(),
    }
}

#[test]
fn plan_lists_are_sorted_and_disjoint() {
    let mut tracker = start("s1");
    let base = vec![entry("a.rs", "a0"), entry("b.rs", "b0"), entry("c.rs", "c0")];
    let edited = vec![entry("a.rs", "a1"), entry("b.rs", "b1"), entry("c.rs", "c1")];
    let current_snapshot = snapshot(edited.clone(), "edited");
    update_tracker_from_turn(
        &mut tracker,
        &TurnSnapshots {
            turn_id: "t1",
            baseline: &base,
            current: &current_snapshot,
            start_head: &base,
            epoch_start: &base,
            other_trackers: &[],
            now: 10,
        },
    );
    assert_eq!(tracker.touched_paths.len(), 3);
    // b.rs changed again outside the turn: it is blocked, the others stay eligible.
    let now_entries = vec![entry("a.rs", "a1"), entry("b.rs", "b2"), entry("c.rs", "c1")];
    let p = build_commit_plan(BuildCommitPlanInput {
        tracker: Some(&tracker),
        stream_id: "stream",
        head_oid: &Some(HEAD.to_string()),
        current_entries: &now_entries,
        epoch_start_entries: &base,
        active_trackers: &[],
        staged_changes_present: false,
        now: 20,
        turn_threshold: 1,
        file_threshold: 4,
        age_seconds: 1200,
    });
    assert_eq!(p.eligible_paths, vec![RepoPath::from_str("a.rs"), RepoPath::from_str("c.rs")]);
    assert_eq!(p.blocked_paths.len(), 1);
    assert_eq!(p.blocked_paths[0].path, RepoPath::from_str("b.rs"));
    assert_eq!(p.blocked_paths[0].reasons, vec![CommitBlockReason::ExternalInterference]);
}

#[test]
fn other_active_trackers_leave_out_the_asker_and_idle_sessions() {
    let candidates = vec![
        SessionActivity { session_id: "s1".to_string(), last_seen_at: Some(9_000) },
        SessionActivity { session_id: "s2".to_string(), last_seen_at: Some(1_000) },
        SessionActivity { session_id: "s3".to_string(), last_seen_at: None },
        SessionActivity { session_id: "s4".to_string(), last_seen_at: Some(10_000) },
    ];
    let now = 10_000;
    assert_eq!(sprocket::engine::session_commit::other_active_trackers(&candidates, now, Some("s1")), vec![3]);
    assert_eq!(sprocket::engine::session_commit::other_active_trackers(&candidates, now, None), vec![0, 3]);
    // Exactly two hours ago is still active.
    let edge = vec![SessionActivity { session_id: "s5".to_string(), last_seen_at: Some(now - 7_200) }];
    assert_eq!(sprocket::engine::session_commit::other_active_trackers(&edge, now, None), vec![0]);
}
