//! Events appended to a stream's journal.
use vstd::prelude::*;

use crate::domain::intent::IntentPhase;
use crate::domain::manager::PendingSource;

verus! {

/// One journal event.
#[derive(Debug, Clone)]
pub enum JournalEvent {
    SessionStart { ts: i64, session_id: String, stream_id: String },
    Baseline {
        ts: i64,
        session_id: String,
        turn_id: String,
        stream_id: String,
        baseline_materialized_fingerprint: String,
    },
    StopDecision {
        ts: i64,
        session_id: String,
        turn_id: String,
        stream_id: String,
        outcome: String,
        source: Option<PendingSource>,
        commit_oid: Option<String>,
    },
    IntentTransition {
        ts: i64,
        stream_id: String,
        intent_id: String,
        checkpoint_commit_oid: String,
        phase: IntentPhase,
    },
    HookNoop { ts: i64, stream_id: String, hook: String, reason: String },
    HookError { ts: i64, stream_id: String, hook: String, reason: String },
    Recovery { ts: i64, stream_id: String, reason: String, commit_oid: Option<String> },
}

/// A hook that did nothing, and why.
pub open spec fn is_hook_noop(
    e: JournalEvent,
    ts: i64,
    stream_id: Seq<char>,
    hook: Seq<char>,
    reason: Seq<char>,
) -> bool {
    e matches JournalEvent::HookNoop { ts: t, stream_id: s, hook: h, reason: r } && t == ts
        && s@ == stream_id && h@ == hook && r@ == reason
}

/// The event of a hook that did nothing.
pub fn hook_noop(ts: i64, stream_id: &str, hook: &str, reason: &str) -> (e: JournalEvent)
    ensures
        is_hook_noop(e, ts, stream_id@, hook@, reason@),
{
    JournalEvent::HookNoop {
        ts,
        stream_id: stream_id.to_string(),
        hook: hook.to_string(),
        reason: reason.to_string(),
    }
}

/// The event of a session start.
pub fn journal_session_start(session_id: &str, stream_id: &str, now: i64) -> (e: JournalEvent)
    ensures
        e matches JournalEvent::SessionStart { ts, session_id: s, stream_id: st } && ts == now
            && s@ == session_id@ && st@ == stream_id@,
{
    JournalEvent::SessionStart {
        ts: now,
        session_id: session_id.to_string(),
        stream_id: stream_id.to_string(),
    }
}

/// The event of an intent reaching a phase.
pub fn intent_transition(
    ts: i64,
    stream_id: &str,
    intent_id: &str,
    checkpoint_commit_oid: &str,
    phase: IntentPhase,
) -> (e: JournalEvent)
    ensures
        e matches JournalEvent::IntentTransition {
            ts: t,
            stream_id: s,
            intent_id: i,
            checkpoint_commit_oid: c,
            phase: p,
        } && t == ts && s@ == stream_id@ && i@ == intent_id@ && c@ == checkpoint_commit_oid@
            && p == phase,
{
    JournalEvent::IntentTransition {
        ts,
        stream_id: stream_id.to_string(),
        intent_id: intent_id.to_string(),
        checkpoint_commit_oid: checkpoint_commit_oid.to_string(),
        phase,
    }
}

/// The event of a recovery step.
pub fn recovery(ts: i64, stream_id: &str, reason: &str, commit_oid: Option<&str>) -> (e: JournalEvent)
    ensures
        e matches JournalEvent::Recovery { ts: t, stream_id: s, reason: r, commit_oid: c } && t
            == ts && s@ == stream_id@ && r@ == reason@ && match commit_oid {
            Some(o) => c matches Some(x) && x@ == o@,
            None => c is None,
        },
{
    JournalEvent::Recovery {
        ts,
        stream_id: stream_id.to_string(),
        reason: reason.to_string(),
        commit_oid: match commit_oid {
            Some(o) => Some(o.to_string()),
            None => None,
        },
    }
}

} // verus!
