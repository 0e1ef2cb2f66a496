//! What the session-start and baseline hooks record, and the (disabled) visible promotion.
use vstd::prelude::*;

use crate::domain::journal::JournalEvent;
use crate::domain::manager::{adopt_pending_snapshot, adopted, ManagerState};
use crate::domain::manifest::StrictSnapshot;
use crate::domain::session::{HeadState, StreamIdentity};
use crate::domain::turn::TurnState;
use crate::engine::stop::{is_observation, last_seen};
use crate::text::str_eq;

verus! {

/// The stream state after a session starts: a worktree that differs from the anchor is
/// adopted into the pending episode, one that matches it leaves nothing pending; the
/// snapshot is last seen either way.
pub open spec fn is_session_start_update(
    before: ManagerState,
    after: ManagerState,
    current: StrictSnapshot,
    session_id: Seq<char>,
    head: HeadState,
    now: i64,
) -> bool {
    &&& after.version == before.version
    &&& after.stream == before.stream
    &&& after.generation == before.generation
    &&& after.anchor == before.anchor
    &&& after.active_sessions == before.active_sessions
    &&& (if current.materialized_fingerprint@ != before.anchor.materialized_fingerprint@ {
        after.pending matches Some(p) && adopted(before.pending, p, session_id, now, current)
    } else {
        after.pending is None
    })
    &&& after.last_seen matches Some(o) && is_observation(o, current, now, head)
}

/// Updates the stream state when a session starts.
pub fn session_start_update(
    manager: &mut ManagerState,
    current: &StrictSnapshot,
    session_id: &str,
    head: &HeadState,
    now: i64,
)
    ensures
        is_session_start_update(*old(manager), *final(manager), *current, session_id@, *head, now),
{
    if !str_eq(current.materialized_fingerprint.as_str(), manager.anchor.materialized_fingerprint.as_str()) {
        let existing = manager.pending.take();
        manager.pending = Some(adopt_pending_snapshot(existing, session_id, now, current));
    } else {
        manager.pending = None;
    }
    manager.last_seen = Some(last_seen(current, now, head));
}

/// The turn a baseline records: the payload's ids, the stream and policy epoch now, the
/// current snapshot as baseline, and the anchor as it stands.
pub open spec fn is_baseline_turn(
    t: TurnState,
    session_id: Seq<char>,
    turn_id: Seq<char>,
    stream: StreamIdentity,
    policy_epoch: Seq<char>,
    now: i64,
    snapshot: StrictSnapshot,
    manager: ManagerState,
) -> bool {
    &&& t.version == 3
    &&& t.session_id@ == session_id
    &&& t.turn_id@ == turn_id
    &&& t.stream_id_at_start@ == stream.stream_id@
    &&& t.stream_class_at_start@ == stream.class@
    &&& t.policy_epoch_at_start@ == policy_epoch
    &&& t.started_at == now
    &&& t.baseline_materialized_fingerprint@ == snapshot.materialized_fingerprint@
    &&& t.baseline_manifest_id@ == snapshot.manifest_id@
    &&& t.anchor_materialized_fingerprint_at_start@ == manager.anchor.materialized_fingerprint@
    &&& t.anchor_manifest_id_at_start@ == manager.anchor.manifest_id@
}

/// The turn state a baseline hook stores.
pub fn baseline_turn(
    session_id: String,
    turn_id: String,
    stream: &StreamIdentity,
    policy_epoch: String,
    now: i64,
    snapshot: &StrictSnapshot,
    manager: &ManagerState,
) -> (t: TurnState)
    ensures
        is_baseline_turn(
            t,
            session_id@,
            turn_id@,
            *stream,
            policy_epoch@,
            now,
            *snapshot,
            *manager,
        ),
{
    TurnState {
        version: 3,
        session_id,
        turn_id,
        stream_id_at_start: stream.stream_id.clone(),
        stream_class_at_start: stream.class.duplicate(),
        policy_epoch_at_start: policy_epoch,
        started_at: now,
        baseline_materialized_fingerprint: snapshot.materialized_fingerprint.clone(),
        baseline_manifest_id: snapshot.manifest_id.clone(),
        anchor_materialized_fingerprint_at_start: manager.anchor.materialized_fingerprint.clone(),
        anchor_manifest_id_at_start: manager.anchor.manifest_id.clone(),
    }
}

/// The journal event of a captured baseline.
pub fn baseline_event(turn: &TurnState, now: i64) -> (e: JournalEvent)
    ensures
        e matches JournalEvent::Baseline {
            ts,
            session_id,
            turn_id,
            stream_id,
            baseline_materialized_fingerprint: f,
        } && ts == now && session_id@ == turn.session_id@ && turn_id@ == turn.turn_id@
            && stream_id@ == turn.stream_id_at_start@ && f@ == turn.baseline_materialized_fingerprint@,
{
    JournalEvent::Baseline {
        ts: now,
        session_id: turn.session_id.clone(),
        turn_id: turn.turn_id.clone(),
        stream_id: turn.stream_id_at_start.clone(),
        baseline_materialized_fingerprint: turn.baseline_materialized_fingerprint.clone(),
    }
}

/// What became of a request to show a hidden checkpoint on the branch.
#[derive(Debug, Clone)]
pub enum PromotionOutcome {
    Skipped(String),
    Promoted(String),
    Blocked(String),
}

/// Visible promotion: always skipped, as the safety envelope keeps checkpoints hidden.
pub fn maybe_promote_visible() -> (o: PromotionOutcome)
    ensures
        o matches PromotionOutcome::Skipped(reason) && reason@ == "promotion-disabled-by-safety-envelope"@,
{
    PromotionOutcome::Skipped(String::from_str("promotion-disabled-by-safety-envelope"))
}

} // verus!
