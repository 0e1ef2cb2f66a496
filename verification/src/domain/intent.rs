//! Checkpoint intents: the write-ahead record of a hidden-ref update.
use vstd::prelude::*;

use crate::domain::session::{copy_opt_string, StreamClass};
use crate::domain::session_tracker::opt_text;

verus! {

/// How far a checkpoint intent got.
#[derive(Debug, Clone, Copy, PartialEq, Eq, Structural)]
pub enum IntentPhase {
    Prepared,
    RefUpdated,
    Finalized,
    Aborted,
}

/// A planned move of a stream's hidden ref to a new checkpoint commit.
#[derive(Debug, Clone)]
pub struct CheckpointIntent {
    pub version: u32,
    pub ts: i64,
    pub intent_id: String,
    pub stream_id: String,
    pub hidden_ref: String,
    pub checkpoint_commit_oid: String,
    pub previous_hidden_oid: Option<String>,
    pub manifest_id: String,
    pub materialized_fingerprint: String,
    pub observed_fingerprint: Option<String>,
    pub policy_epoch: String,
    pub stream_class: StreamClass,
    pub phase: IntentPhase,
}

/// Two intents that record the same planned move (they may differ in phase and time).
pub open spec fn same_move(a: CheckpointIntent, b: CheckpointIntent) -> bool {
    &&& a.version == b.version
    &&& a.intent_id@ == b.intent_id@
    &&& a.stream_id@ == b.stream_id@
    &&& a.hidden_ref@ == b.hidden_ref@
    &&& a.checkpoint_commit_oid@ == b.checkpoint_commit_oid@
    &&& opt_text(a.previous_hidden_oid) == opt_text(b.previous_hidden_oid)
    &&& a.manifest_id@ == b.manifest_id@
    &&& a.materialized_fingerprint@ == b.materialized_fingerprint@
    &&& opt_text(a.observed_fingerprint) == opt_text(b.observed_fingerprint)
    &&& a.policy_epoch@ == b.policy_epoch@
    &&& a.stream_class@ == b.stream_class@
}

impl CheckpointIntent {
    /// The same planned move, at another phase and time.
    pub fn with_phase(&self, phase: IntentPhase, ts: i64) -> (r: Self)
        ensures
            same_move(r, *self),
            r.phase == phase,
            r.ts == ts,
    {
        CheckpointIntent {
            version: self.version,
            ts,
            intent_id: self.intent_id.clone(),
            stream_id: self.stream_id.clone(),
            hidden_ref: self.hidden_ref.clone(),
            checkpoint_commit_oid: self.checkpoint_commit_oid.clone(),
            previous_hidden_oid: copy_opt_string(&self.previous_hidden_oid),
            manifest_id: self.manifest_id.clone(),
            materialized_fingerprint: self.materialized_fingerprint.clone(),
            observed_fingerprint: copy_opt_string(&self.observed_fingerprint),
            policy_epoch: self.policy_epoch.clone(),
            stream_class: self.stream_class.duplicate(),
            phase,
        }
    }
}

} // verus!
