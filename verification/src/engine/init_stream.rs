//! Bringing a stream to a usable anchor: keep the rebuilt state, or bootstrap a new anchor.
use vstd::prelude::*;

use crate::domain::intent::{CheckpointIntent, IntentPhase};
use crate::domain::manager::{is_uuid_v4_text, new_random_id, ManagerState};
use crate::domain::manifest::StrictSnapshot;
use crate::domain::policy::PolicyEpoch;
use crate::domain::session::{copy_opt_string, StreamIdentity};
use crate::domain::session_tracker::opt_text;
use crate::engine::repair::policy_epoch_changed;
use crate::text::push_str;

verus! {

/// What to do with the state rebuilt from the hidden ref.
#[derive(Debug, Clone, Copy, PartialEq, Eq, Structural)]
pub enum InitDecision {
    /// Use the rebuilt state as it is.
    Keep,
    /// Make a new anchor at this generation; `epoch_changed` when it replaces an anchor made
    /// under another policy.
    Bootstrap { generation: u64, epoch_changed: bool },
}

/// The decision for a stream: no hidden ref means a first anchor at generation 1; a hidden
/// ref made under the current policy is kept; one made under another policy is replaced by
/// an anchor one generation later.
pub open spec fn spec_init_decision(existing: Option<ManagerState>, epoch: Seq<char>) -> InitDecision {
    match existing {
        None => InitDecision::Bootstrap { generation: 1, epoch_changed: false },
        Some(m) => if m.anchor.policy_epoch@ == epoch {
            InitDecision::Keep
        } else {
            InitDecision::Bootstrap { generation: (m.generation + 1) as u64, epoch_changed: true }
        },
    }
}

/// Decides how to initialize a stream from the state rebuilt from its hidden ref.
pub fn init_decision(existing: &Option<ManagerState>, policy_epoch: &PolicyEpoch) -> (d:
    InitDecision)
    requires
        existing matches Some(m) ==> (m.anchor.policy_epoch@ != policy_epoch.0@ ==> m.generation
            < u64::MAX),
    ensures
        d == spec_init_decision(*existing, policy_epoch.0@),
{
    match existing {
        None => InitDecision::Bootstrap { generation: 1, epoch_changed: false },
        Some(m) => {
            if !policy_epoch_changed(m, policy_epoch) {
                InitDecision::Keep
            } else {
                InitDecision::Bootstrap { generation: m.generation + 1, epoch_changed: true }
            }
        },
    }
}

/// The subject of a bootstrap anchor's message.
pub fn bootstrap_subject(default_area: &str) -> (s: String)
    ensures
        s@ == "checkpoint("@ + default_area@ + "): bootstrap anchor [auto]"@,
{
    let mut s = String::from_str("checkpoint(");
    push_str(&mut s, default_area);
    push_str(&mut s, "): bootstrap anchor [auto]");
    s
}

/// A prepared intent to move `stream`'s hidden ref to `commit_oid`.
pub open spec fn is_prepared_intent(
    i: CheckpointIntent,
    intent_id: Seq<char>,
    now: i64,
    stream: StreamIdentity,
    commit_oid: Seq<char>,
    previous_hidden_oid: Option<Seq<char>>,
    snapshot: StrictSnapshot,
    policy_epoch: Seq<char>,
) -> bool {
    &&& i.version == 1
    &&& i.ts == now
    &&& i.intent_id@ == intent_id
    &&& i.stream_id@ == stream.stream_id@
    &&& i.hidden_ref@ == stream.hidden_ref@
    &&& i.checkpoint_commit_oid@ == commit_oid
    &&& opt_text(i.previous_hidden_oid) == previous_hidden_oid
    &&& i.manifest_id@ == snapshot.manifest_id@
    &&& i.materialized_fingerprint@ == snapshot.materialized_fingerprint@
    &&& opt_text(i.observed_fingerprint) == opt_text(snapshot.observed_fingerprint)
    &&& i.policy_epoch@ == policy_epoch
    &&& i.stream_class@ == stream.class@
    &&& i.phase == IntentPhase::Prepared
}

/// The prepared intent written before a hidden ref moves.
pub fn prepared_intent(
    intent_id: String,
    now: i64,
    stream: &StreamIdentity,
    commit_oid: &str,
    previous_hidden_oid: Option<&str>,
    snapshot: &StrictSnapshot,
    policy_epoch: &str,
) -> (i: CheckpointIntent)
    ensures
        is_prepared_intent(
            i,
            intent_id@,
            now,
            *stream,
            commit_oid@,
            crate::engine::repair::opt_str(previous_hidden_oid),
            *snapshot,
            policy_epoch@,
        ),
{
    CheckpointIntent {
        version: 1,
        ts: now,
        intent_id,
        stream_id: stream.stream_id.clone(),
        hidden_ref: stream.hidden_ref.clone(),
        checkpoint_commit_oid: commit_oid.to_string(),
        previous_hidden_oid: match previous_hidden_oid {
            Some(o) => Some(o.to_string()),
            None => None,
        },
        manifest_id: snapshot.manifest_id.clone(),
        materialized_fingerprint: snapshot.materialized_fingerprint.clone(),
        observed_fingerprint: copy_opt_string(&snapshot.observed_fingerprint),
        policy_epoch: policy_epoch.to_string(),
        stream_class: stream.class.duplicate(),
        phase: IntentPhase::Prepared,
    }
}

/// The prepared intent written before a hidden ref moves, under a fresh random intent id.
pub fn new_prepared_intent(
    now: i64,
    stream: &StreamIdentity,
    commit_oid: &str,
    previous_hidden_oid: Option<&str>,
    snapshot: &StrictSnapshot,
    policy_epoch: &str,
) -> (i: CheckpointIntent)
    ensures
        is_uuid_v4_text(i.intent_id@),
        is_prepared_intent(
            i,
            i.intent_id@,
            now,
            *stream,
            commit_oid@,
            crate::engine::repair::opt_str(previous_hidden_oid),
            *snapshot,
            policy_epoch@,
        ),
{
    prepared_intent(new_random_id(), now, stream, commit_oid, previous_hidden_oid, snapshot, policy_epoch)
}

} // verus!
