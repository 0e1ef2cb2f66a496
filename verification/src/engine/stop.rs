//! The decisions of the end-of-turn checkpoint hook: which turns count, what the decision
//! does to the stream state, and the state after a checkpoint is materialized.
use vstd::prelude::*;

use crate::domain::decision::{spec_classify, ClassifyInput, Decision, NoopReason};
use crate::domain::journal::JournalEvent;
use crate::domain::manager::{
    reconcile_pending, reconciled, AnchorState, ManagerState, PendingSource,
};
use crate::domain::manifest::StrictSnapshot;
use crate::domain::session::{copy_opt_string, same_stream, HeadState, Observation, StreamIdentity};
use crate::domain::session_tracker::opt_text;
use crate::domain::turn::TurnState;
use crate::text::str_eq;

verus! {

/// Why a turn is dropped before any decision: it started on another stream, or under
/// another policy than the anchor's.
pub open spec fn spec_turn_gate(turn: TurnState, stream_id: Seq<char>, anchor_epoch: Seq<char>) -> Option<
    Seq<char>,
> {
    if turn.stream_id_at_start@ != stream_id {
        Some("stream-changed"@)
    } else if turn.policy_epoch_at_start@ != anchor_epoch {
        Some("policy-epoch-changed"@)
    } else {
        None
    }
}

/// Why a turn is dropped before any decision, if it is.
pub fn turn_gate(turn: &TurnState, stream_id: &str, anchor_policy_epoch: &str) -> (r: Option<
    &'static str,
>)
    ensures
        r matches Some(s) ==> spec_turn_gate(*turn, stream_id@, anchor_policy_epoch@) == Some(s@),
        r is None ==> spec_turn_gate(*turn, stream_id@, anchor_policy_epoch@) is None,
{
    if !str_eq(turn.stream_id_at_start.as_str(), stream_id) {
        Some("stream-changed")
    } else if !str_eq(turn.policy_epoch_at_start.as_str(), anchor_policy_epoch) {
        Some("policy-epoch-changed")
    } else {
        None
    }
}

/// The journal event that closes a turn.
pub fn stop_event(
    now: i64,
    turn: &TurnState,
    stream_id: &str,
    outcome: &str,
    source: Option<PendingSource>,
    commit_oid: Option<String>,
) -> (e: JournalEvent)
    ensures
        e matches JournalEvent::StopDecision {
            ts,
            session_id,
            turn_id,
            stream_id: s,
            outcome: o,
            source: src,
            commit_oid: c,
        } && ts == now && session_id@ == turn.session_id@ && turn_id@ == turn.turn_id@ && s@
            == stream_id@ && o@ == outcome@ && src == source && opt_text(c) == opt_text(commit_oid),
{
    JournalEvent::StopDecision {
        ts: now,
        session_id: turn.session_id.clone(),
        turn_id: turn.turn_id.clone(),
        stream_id: stream_id.to_string(),
        outcome: outcome.to_string(),
        source,
        commit_oid,
    }
}

/// An observation of a snapshot at `now` with HEAD at `head`.
pub open spec fn is_observation(o: Observation, snapshot: StrictSnapshot, now: i64, head: HeadState) -> bool {
    &&& o.materialized_fingerprint@ == snapshot.materialized_fingerprint@
    &&& opt_text(o.observed_fingerprint) == opt_text(snapshot.observed_fingerprint)
    &&& o.manifest_id@ == snapshot.manifest_id@
    &&& o.seen_at == now
    &&& opt_text(o.observed_head_oid) == opt_text(head.oid)
}

/// What was last seen: the snapshot, at `now`, with HEAD at `head`.
pub fn last_seen(snapshot: &StrictSnapshot, now: i64, head: &HeadState) -> (o: Observation)
    ensures
        is_observation(o, *snapshot, now, *head),
{
    Observation {
        materialized_fingerprint: snapshot.materialized_fingerprint.clone(),
        observed_fingerprint: copy_opt_string(&snapshot.observed_fingerprint),
        manifest_id: snapshot.manifest_id.clone(),
        seen_at: now,
        observed_head_oid: copy_opt_string(&head.oid),
    }
}

/// The anchor switched to a snapshot recovered from the hidden-ref commit, when its stored
/// manifest is gone.
pub fn adopt_recovered_manifest(manager: &mut ManagerState, recovered: &StrictSnapshot)
    ensures
        final(manager).anchor.manifest_id@ == recovered.manifest_id@,
        final(manager).anchor.materialized_fingerprint@ == recovered.materialized_fingerprint@,
        opt_text(final(manager).anchor.observed_fingerprint) == opt_text(
            recovered.observed_fingerprint,
        ),
        final(manager).anchor.checkpoint_commit_oid == old(manager).anchor.checkpoint_commit_oid,
        final(manager).anchor.policy_epoch == old(manager).anchor.policy_epoch,
        final(manager).generation == old(manager).generation,
        final(manager).pending == old(manager).pending,
        final(manager).last_seen == old(manager).last_seen,
{
    manager.anchor.manifest_id = recovered.manifest_id.clone();
    manager.anchor.materialized_fingerprint = recovered.materialized_fingerprint.clone();
    manager.anchor.observed_fingerprint = copy_opt_string(&recovered.observed_fingerprint);
}

/// Checkpoint age in seconds from the policy's minutes.
pub fn age_seconds(age_minutes: u64) -> (r: i64)
    requires
        i64::MIN <= (age_minutes as i64) * 60 <= i64::MAX,
    ensures
        r == (age_minutes as i64) * 60,
{
    let minutes = age_minutes as i64;
    minutes * 60
}

/// The input of the end-of-turn decision: the stream now and at the turn's start, the
/// anchor, the turn's baseline, the current snapshot, how many paths changed since the
/// anchor, the pending episode and the thresholds.
pub open spec fn is_stop_input(
    input: ClassifyInput,
    stream: StreamIdentity,
    turn: TurnState,
    manager: ManagerState,
    snapshot: StrictSnapshot,
    changed_paths: u32,
    now: i64,
    turn_threshold: u32,
    file_threshold: u32,
    age: i64,
) -> bool {
    &&& input.stream_id_now@ == stream.stream_id@
    &&& input.stream_id_at_start@ == turn.stream_id_at_start@
    &&& input.now_unix == now
    &&& input.anchor_fingerprint@ == manager.anchor.materialized_fingerprint@
    &&& input.turn_baseline_fingerprint@ == turn.baseline_materialized_fingerprint@
    &&& input.anchor_fingerprint_at_start@ == turn.anchor_materialized_fingerprint_at_start@
    &&& input.current_fingerprint@ == snapshot.materialized_fingerprint@
    &&& input.global_changed_paths == changed_paths
    &&& input.pending_turn_count == (match manager.pending {
        Some(p) => p.pending_turn_count,
        None => 0,
    })
    &&& input.pending_first_seen_at == (match manager.pending {
        Some(p) => Some(p.first_seen_at),
        None => None,
    })
    &&& input.turn_threshold == turn_threshold
    &&& input.file_threshold == file_threshold
    &&& input.age_seconds == age
}

/// Assembles the input of the end-of-turn decision.
pub fn stop_input<'a>(
    stream: &'a StreamIdentity,
    turn: &'a TurnState,
    manager: &'a ManagerState,
    snapshot: &'a StrictSnapshot,
    changed_paths: u32,
    now: i64,
    turn_threshold: u32,
    file_threshold: u32,
    age: i64,
) -> (input: ClassifyInput<'a>)
    ensures
        is_stop_input(
            input,
            *stream,
            *turn,
            *manager,
            *snapshot,
            changed_paths,
            now,
            turn_threshold,
            file_threshold,
            age,
        ),
{
    ClassifyInput {
        stream_id_now: stream.stream_id.as_str(),
        stream_id_at_start: turn.stream_id_at_start.as_str(),
        now_unix: now,
        anchor_fingerprint: manager.anchor.materialized_fingerprint.as_str(),
        turn_baseline_fingerprint: turn.baseline_materialized_fingerprint.as_str(),
        anchor_fingerprint_at_start: turn.anchor_materialized_fingerprint_at_start.as_str(),
        current_fingerprint: snapshot.materialized_fingerprint.as_str(),
        global_changed_paths: changed_paths,
        pending_turn_count: match &manager.pending {
            Some(p) => p.pending_turn_count,
            None => 0,
        },
        pending_first_seen_at: match &manager.pending {
            Some(p) => Some(p.first_seen_at),
            None => None,
        },
        turn_threshold,
        file_threshold,
        age_seconds: age,
    }
}

/// What is left to do once the decision has been applied to the stream state.
#[derive(Debug, Clone, PartialEq, Eq, Structural)]
pub enum StopPlan {
    /// The turn is closed with this outcome and source.
    Done { outcome: StopOutcome, source: Option<PendingSource> },
    /// A checkpoint of the current snapshot must be materialized.
    Materialize { source: PendingSource },
}

/// How a turn closed without a new checkpoint.
#[derive(Debug, Clone, Copy, PartialEq, Eq, Structural)]
pub enum StopOutcome {
    MatchesAnchor,
    MissingTurn,
    StreamChanged,
    Pending,
}

/// The journal word of an outcome.
pub open spec fn outcome_text(o: StopOutcome) -> Seq<char> {
    match o {
        StopOutcome::MatchesAnchor => "matches-anchor"@,
        StopOutcome::MissingTurn => "missing-turn"@,
        StopOutcome::StreamChanged => "stream-changed"@,
        StopOutcome::Pending => "pending"@,
    }
}

/// The journal word of an outcome.
pub fn outcome_word(o: StopOutcome) -> (s: &'static str)
    ensures
        s@ == outcome_text(o),
{
    match o {
        StopOutcome::MatchesAnchor => "matches-anchor",
        StopOutcome::MissingTurn => "missing-turn",
        StopOutcome::StreamChanged => "stream-changed",
        StopOutcome::Pending => "pending",
    }
}

/// The outcome of a no-op decision.
pub open spec fn noop_outcome(r: NoopReason) -> StopOutcome {
    match r {
        NoopReason::MatchesAnchor => StopOutcome::MatchesAnchor,
        NoopReason::MissingTurn => StopOutcome::MissingTurn,
        NoopReason::StreamChanged => StopOutcome::StreamChanged,
    }
}

/// The stream state after a decision: a no-op forgets the pending episode only when the
/// worktree matches the anchor; recording adds the turn to the pending episode; both note
/// the snapshot as last seen. Materializing changes nothing yet.
pub open spec fn is_settled(
    before: ManagerState,
    after: ManagerState,
    plan: StopPlan,
    decision: Decision,
    session_id: Seq<char>,
    snapshot: StrictSnapshot,
    head: HeadState,
    now: i64,
) -> bool {
    &&& after.version == before.version
    &&& after.stream == before.stream
    &&& after.generation == before.generation
    &&& after.anchor == before.anchor
    &&& after.active_sessions == before.active_sessions
    &&& match decision {
        Decision::Noop(reason) => {
            &&& plan == StopPlan::Done { outcome: noop_outcome(reason), source: None }
            &&& (if reason == NoopReason::MatchesAnchor {
                after.pending is None
            } else {
                after.pending == before.pending
            })
            &&& after.last_seen matches Some(o) && is_observation(o, snapshot, now, head)
        },
        Decision::RecordPending { source, .. } => {
            &&& plan == StopPlan::Done { outcome: StopOutcome::Pending, source: Some(source) }
            &&& after.pending matches Some(p) && reconciled(
                before.pending,
                p,
                session_id,
                source,
                now,
                snapshot,
            )
            &&& after.last_seen matches Some(o) && is_observation(o, snapshot, now, head)
        },
        Decision::Materialize { source, .. } => {
            &&& plan == StopPlan::Materialize { source }
            &&& after == before
        },
    }
}

/// Applies the end-of-turn decision to the stream state.
pub fn settle_decision(
    manager: &mut ManagerState,
    decision: &Decision,
    session_id: &str,
    snapshot: &StrictSnapshot,
    head: &HeadState,
    now: i64,
) -> (plan: StopPlan)
    ensures
        is_settled(*old(manager), *final(manager), plan, *decision, session_id@, *snapshot, *head, now),
{
    match decision {
        Decision::Noop(reason) => {
            if *reason == NoopReason::MatchesAnchor {
                manager.pending = None;
            }
            manager.last_seen = Some(last_seen(snapshot, now, head));
            let outcome = match reason {
                NoopReason::MatchesAnchor => StopOutcome::MatchesAnchor,
                NoopReason::MissingTurn => StopOutcome::MissingTurn,
                NoopReason::StreamChanged => StopOutcome::StreamChanged,
            };
            StopPlan::Done { outcome, source: None }
        },
        Decision::RecordPending { source, .. } => {
            let existing = manager.pending.take();
            manager.pending = Some(reconcile_pending(existing, session_id, *source, now, snapshot));
            manager.last_seen = Some(last_seen(snapshot, now, head));
            StopPlan::Done { outcome: StopOutcome::Pending, source: Some(*source) }
        },
        Decision::Materialize { source, .. } => StopPlan::Materialize { source: *source },
    }
}

/// The stream state once a checkpoint of `snapshot` is on the hidden ref: one generation
/// later, anchored at the new commit under the same policy epoch, nothing pending, the
/// snapshot last seen.
pub open spec fn is_advanced(
    before: ManagerState,
    after: ManagerState,
    commit_oid: Seq<char>,
    snapshot: StrictSnapshot,
    stream: StreamIdentity,
    head: HeadState,
    now: i64,
) -> bool {
    &&& after.version == before.version
    &&& after.stream == before.stream
    &&& after.active_sessions == before.active_sessions
    &&& after.generation == before.generation + 1
    &&& after.anchor.checkpoint_commit_oid@ == commit_oid
    &&& after.anchor.manifest_id@ == snapshot.manifest_id@
    &&& after.anchor.materialized_fingerprint@ == snapshot.materialized_fingerprint@
    &&& opt_text(after.anchor.observed_fingerprint) == opt_text(snapshot.observed_fingerprint)
    &&& after.anchor.policy_epoch@ == before.anchor.policy_epoch@
    &&& after.anchor.stream_class@ == stream.class@
    &&& opt_text(after.anchor.observed_head_oid) == opt_text(head.oid)
    &&& opt_text(after.anchor.observed_head_ref) == opt_text(head.symref)
    &&& after.anchor.materialized_at == now
    &&& after.pending is None
    &&& after.last_seen matches Some(o) && is_observation(o, snapshot, now, head)
}

/// Moves the stream state to a newly materialized checkpoint.
pub fn advance_anchor(
    manager: &mut ManagerState,
    commit_oid: &str,
    snapshot: &StrictSnapshot,
    stream: &StreamIdentity,
    head: &HeadState,
    now: i64,
)
    requires
        old(manager).generation < u64::MAX,
    ensures
        is_advanced(*old(manager), *final(manager), commit_oid@, *snapshot, *stream, *head, now),
{
    manager.generation = manager.generation + 1;
    let policy_epoch = manager.anchor.policy_epoch.clone();
    manager.anchor = AnchorState {
        checkpoint_commit_oid: commit_oid.to_string(),
        manifest_id: snapshot.manifest_id.clone(),
        materialized_fingerprint: snapshot.materialized_fingerprint.clone(),
        observed_fingerprint: copy_opt_string(&snapshot.observed_fingerprint),
        policy_epoch,
        stream_class: stream.class.duplicate(),
        observed_head_oid: copy_opt_string(&head.oid),
        observed_head_ref: copy_opt_string(&head.symref),
        materialized_at: now,
    };
    manager.pending = None;
    manager.last_seen = Some(last_seen(snapshot, now, head));
}

/// Once a snapshot is materialized, a later turn on the same stream that ends with the
/// worktree unchanged records nothing: the decision is that it matches the anchor.
pub proof fn law_materialized_snapshot_matches_anchor(
    before: ManagerState,
    after: ManagerState,
    commit_oid: Seq<char>,
    snapshot: StrictSnapshot,
    stream: StreamIdentity,
    head: HeadState,
    now: i64,
    input: ClassifyInput,
)
    requires
        is_advanced(before, after, commit_oid, snapshot, stream, head, now),
        input.stream_id_now@ == input.stream_id_at_start@,
        input.anchor_fingerprint@ == after.anchor.materialized_fingerprint@,
        input.current_fingerprint@ == snapshot.materialized_fingerprint@,
    ensures
        spec_classify(input) == Decision::Noop(NoopReason::MatchesAnchor),
{
}

} // verus!
