//! The stream manager state: the current anchor and the pending (not yet materialized) episode.
use vstd::prelude::*;

use crate::domain::ids::is_lower_hex;
use crate::domain::manifest::StrictSnapshot;
use crate::domain::session::{Observation, StreamClass, StreamIdentity};

verus! {

/// Where the uncommitted changes of a pending episode came from.
#[derive(Debug, Clone, Copy, PartialEq, Eq, Structural)]
pub enum PendingSource {
    TurnLocal,
    Inherited,
    Mixed,
    External,
}

/// The hidden checkpoint the stream currently builds on.
#[derive(Debug, Clone)]
pub struct AnchorState {
    pub checkpoint_commit_oid: String,
    pub manifest_id: String,
    pub materialized_fingerprint: String,
    pub observed_fingerprint: Option<String>,
    pub policy_epoch: String,
    pub stream_class: StreamClass,
    pub observed_head_oid: Option<String>,
    pub observed_head_ref: Option<String>,
    pub materialized_at: i64,
}

/// Changes seen since the anchor that have not been materialized yet.
#[derive(Debug, Clone)]
pub struct PendingEpisode {
    pub epoch_id: String,
    pub first_seen_at: i64,
    pub last_seen_at: i64,
    pub first_seen_materialized_fingerprint: String,
    pub latest_materialized_fingerprint: String,
    pub latest_manifest_id: String,
    pub pending_turn_count: u32,
    pub source: PendingSource,
    pub touched_sessions: Vec<String>,
}

/// The cached state of one checkpoint stream.
#[derive(Debug, Clone)]
pub struct ManagerState {
    pub version: u32,
    pub stream: StreamIdentity,
    pub generation: u64,
    pub anchor: AnchorState,
    pub pending: Option<PendingEpisode>,
    pub last_seen: Option<Observation>,
    pub active_sessions: Vec<String>,
}

/// Combining two sources: equal sources stay, anything else (or anything mixed) is mixed.
pub open spec fn spec_merge_pending_source(left: PendingSource, right: PendingSource) -> PendingSource {
    if left == PendingSource::Mixed || right == PendingSource::Mixed {
        PendingSource::Mixed
    } else if left == right {
        left
    } else {
        PendingSource::Mixed
    }
}

pub fn merge_pending_source(left: PendingSource, right: PendingSource) -> (r: PendingSource)
    ensures
        r == spec_merge_pending_source(left, right),
{
    match (left, right) {
        (PendingSource::Mixed, _) | (_, PendingSource::Mixed) => PendingSource::Mixed,
        (current, incoming) => {
            if current == incoming {
                current
            } else {
                PendingSource::Mixed
            }
        },
    }
}

/// Merging sources does not depend on their order.
pub proof fn law_merge_source_commutative(a: PendingSource, b: PendingSource)
    ensures
        spec_merge_pending_source(a, b) == spec_merge_pending_source(b, a),
{
}

/// Merging sources can be regrouped freely.
pub proof fn law_merge_source_associative(a: PendingSource, b: PendingSource, c: PendingSource)
    ensures
        spec_merge_pending_source(spec_merge_pending_source(a, b), c) == spec_merge_pending_source(
            a,
            spec_merge_pending_source(b, c),
        ),
{
}

/// Merging a source with itself leaves it unchanged.
pub proof fn law_merge_source_idempotent(a: PendingSource)
    ensures
        spec_merge_pending_source(a, a) == a,
{
}

/// Once mixed, a pending episode stays mixed whatever comes next.
pub proof fn law_mixed_absorbs(a: PendingSource)
    ensures
        spec_merge_pending_source(PendingSource::Mixed, a) == PendingSource::Mixed,
        spec_merge_pending_source(a, PendingSource::Mixed) == PendingSource::Mixed,
{
}

/// The text of a random (version 4) UUID in its hyphenated form: 36 characters, `-` at
/// positions 8, 13, 18 and 23, lowercase hexadecimal digits elsewhere, the version digit `4`
/// at position 14 and a variant digit among `8`, `9`, `a`, `b` at position 19.
pub open spec fn is_uuid_v4_text(s: Seq<char>) -> bool {
    &&& s.len() == 36
    &&& forall|i: int|
        0 <= i < 36 ==> (if i == 8 || i == 13 || i == 18 || i == 23 {
            #[trigger] s[i] == '-'
        } else {
            is_lower_hex(s[i])
        })
    &&& s[14] == '4'
    &&& (s[19] == '8' || s[19] == '9' || s[19] == 'a' || s[19] == 'b')
}

/// A fresh random identifier: `uuid::Uuid::new_v4()` written with `to_string`, which gives
/// the hyphenated lowercase form. Which identifier comes out is chance; only its form is
/// stated.
#[verifier::external_body]
pub(crate) fn new_random_id() -> (r: String)
    ensures
        is_uuid_v4_text(r@),
{
    uuid::Uuid::new_v4().to_string()
}

/// The names, as text.
pub open spec fn names(v: Seq<String>) -> Seq<Seq<char>> {
    v.map_values(|s: String| s@)
}

/// `sessions` with `id` added at the end unless it is already there.
pub open spec fn with_session(sessions: Seq<Seq<char>>, id: Seq<char>) -> Seq<Seq<char>> {
    if sessions.contains(id) {
        sessions
    } else {
        sessions.push(id)
    }
}

/// Whether a list of names holds `id`.
pub fn contains_name(v: &Vec<String>, id: &str) -> (r: bool)
    ensures
        r == names(v@).contains(id@),
{
    let mut i: usize = 0;
    while i < v.len()
        invariant
            i <= v.len(),
            forall|k: int| 0 <= k < i ==> names(v@)[k] != id@,
        decreases v.len() - i,
    {
        if crate::text::str_eq(v[i].as_str(), id) {
            assert(names(v@)[i as int] == id@);
            return true;
        }
        i = i + 1;
    }
    proof {
        if names(v@).contains(id@) {
            let k = choose|k: int| 0 <= k < names(v@).len() && names(v@)[k] == id@;
        }
    }
    false
}

/// Adds `id` to a list of names unless it is already there.
pub fn add_session(v: &mut Vec<String>, id: &str)
    ensures
        names(final(v)@) == with_session(names(old(v)@), id@),
{
    if !contains_name(v, id) {
        v.push(id.to_string());
        proof {
            assert(names(v@) =~= names(old(v)@).push(id@));
        }
    }
}

/// The saturating successor of a count.
pub open spec fn sat_inc(n: u32) -> u32 {
    if n == u32::MAX {
        n
    } else {
        (n + 1) as u32
    }
}

/// The episode after another turn with uncommitted changes: a new episode when none was
/// pending, otherwise the same episode seen again (one more turn, sources merged, the
/// session recorded).
pub open spec fn reconciled(
    existing: Option<PendingEpisode>,
    new: PendingEpisode,
    session_id: Seq<char>,
    source: PendingSource,
    now: i64,
    snapshot: StrictSnapshot,
) -> bool {
    &&& new.last_seen_at == now
    &&& new.latest_materialized_fingerprint@ == snapshot.materialized_fingerprint@
    &&& new.latest_manifest_id@ == snapshot.manifest_id@
    &&& match existing {
        None => {
            &&& new.first_seen_at == now
            &&& new.first_seen_materialized_fingerprint@ == snapshot.materialized_fingerprint@
            &&& is_uuid_v4_text(new.epoch_id@)
            &&& new.pending_turn_count == 1
            &&& new.source == source
            &&& names(new.touched_sessions@) == seq![session_id]
        },
        Some(e) => {
            &&& new.epoch_id@ == e.epoch_id@
            &&& new.first_seen_at == e.first_seen_at
            &&& new.first_seen_materialized_fingerprint@ == e.first_seen_materialized_fingerprint@
            &&& new.pending_turn_count == sat_inc(e.pending_turn_count)
            &&& new.source == spec_merge_pending_source(e.source, source)
            &&& names(new.touched_sessions@) == with_session(names(e.touched_sessions@), session_id)
        },
    }
}

/// Records one more turn with uncommitted changes in the pending episode.
pub fn reconcile_pending(
    existing: Option<PendingEpisode>,
    session_id: &str,
    source: PendingSource,
    now: i64,
    snapshot: &StrictSnapshot,
) -> (res: PendingEpisode)
    ensures
        reconciled(existing, res, session_id@, source, now, *snapshot),
{
    match existing {
        None => {
            let mut touched: Vec<String> = Vec::new();
            touched.push(session_id.to_string());
            proof { assert(names(touched@) =~= seq![session_id@]); }
            PendingEpisode {
                epoch_id: new_random_id(),
                first_seen_at: now,
                last_seen_at: now,
                first_seen_materialized_fingerprint: snapshot.materialized_fingerprint.clone(),
                latest_materialized_fingerprint: snapshot.materialized_fingerprint.clone(),
                latest_manifest_id: snapshot.manifest_id.clone(),
                pending_turn_count: 1,
                source,
                touched_sessions: touched,
            }
        },
        Some(episode) => {
            let mut episode = episode;
            episode.last_seen_at = now;
            episode.latest_materialized_fingerprint = snapshot.materialized_fingerprint.clone();
            episode.latest_manifest_id = snapshot.manifest_id.clone();
            episode.pending_turn_count = episode.pending_turn_count.saturating_add(1);
            episode.source = merge_pending_source(episode.source, source);
            add_session(&mut episode.touched_sessions, session_id);
            episode
        },
    }
}

/// The episode after a session starts on a dirty worktree: a new inherited episode with no
/// turns when none was pending, otherwise the same episode seen again with the session recorded.
pub open spec fn adopted(
    existing: Option<PendingEpisode>,
    new: PendingEpisode,
    session_id: Seq<char>,
    now: i64,
    snapshot: StrictSnapshot,
) -> bool {
    &&& new.last_seen_at == now
    &&& new.latest_materialized_fingerprint@ == snapshot.materialized_fingerprint@
    &&& new.latest_manifest_id@ == snapshot.manifest_id@
    &&& match existing {
        None => {
            &&& new.first_seen_at == now
            &&& new.first_seen_materialized_fingerprint@ == snapshot.materialized_fingerprint@
            &&& is_uuid_v4_text(new.epoch_id@)
            &&& new.pending_turn_count == 0
            &&& new.source == PendingSource::Inherited
            &&& names(new.touched_sessions@) == seq![session_id]
        },
        Some(e) => {
            &&& new.epoch_id@ == e.epoch_id@
            &&& new.first_seen_at == e.first_seen_at
            &&& new.first_seen_materialized_fingerprint@ == e.first_seen_materialized_fingerprint@
            &&& new.pending_turn_count == e.pending_turn_count
            &&& new.source == e.source
            &&& names(new.touched_sessions@) == with_session(names(e.touched_sessions@), session_id)
        },
    }
}

/// Adopts the current dirty snapshot into the pending episode at session start.
pub fn adopt_pending_snapshot(
    existing: Option<PendingEpisode>,
    session_id: &str,
    now: i64,
    snapshot: &StrictSnapshot,
) -> (res: PendingEpisode)
    ensures
        adopted(existing, res, session_id@, now, *snapshot),
{
    match existing {
        None => {
            let mut touched: Vec<String> = Vec::new();
            touched.push(session_id.to_string());
            proof { assert(names(touched@) =~= seq![session_id@]); }
            PendingEpisode {
                epoch_id: new_random_id(),
                first_seen_at: now,
                last_seen_at: now,
                first_seen_materialized_fingerprint: snapshot.materialized_fingerprint.clone(),
                latest_materialized_fingerprint: snapshot.materialized_fingerprint.clone(),
                latest_manifest_id: snapshot.manifest_id.clone(),
                pending_turn_count: 0,
                source: PendingSource::Inherited,
                touched_sessions: touched,
            }
        },
        Some(pending) => {
            let mut pending = pending;
            pending.last_seen_at = now;
            pending.latest_materialized_fingerprint = snapshot.materialized_fingerprint.clone();
            pending.latest_manifest_id = snapshot.manifest_id.clone();
            add_session(&mut pending.touched_sessions, session_id);
            pending
        },
    }
}

/// Recording a turn keeps the episode's sessions free of duplicates and always lists the
/// session of that turn.
pub proof fn law_touched_sessions_stay_unique(
    existing: PendingEpisode,
    new: PendingEpisode,
    session_id: Seq<char>,
    source: PendingSource,
    now: i64,
    snapshot: StrictSnapshot,
)
    requires
        names(existing.touched_sessions@).no_duplicates(),
        reconciled(Some(existing), new, session_id, source, now, snapshot),
    ensures
        names(new.touched_sessions@).no_duplicates(),
        names(new.touched_sessions@).contains(session_id),
{
    let old_names = names(existing.touched_sessions@);
    if !old_names.contains(session_id) {
        let n = old_names.push(session_id);
        assert(n[n.len() - 1] == session_id);
        assert forall|i: int, j: int| 0 <= i < n.len() && 0 <= j < n.len() && i != j implies n[i] != n[j] by {
            if i < old_names.len() && j < old_names.len() {
                assert(n[i] == old_names[i] && n[j] == old_names[j]);
            } else if i < old_names.len() {
                assert(n[i] == old_names[i]);
            } else {
                assert(n[j] == old_names[j]);
            }
        }
    }
}

/// Every further turn in an episode counts one more turn, until the count saturates.
pub proof fn law_turn_count_grows(
    existing: PendingEpisode,
    new: PendingEpisode,
    session_id: Seq<char>,
    source: PendingSource,
    now: i64,
    snapshot: StrictSnapshot,
)
    requires
        reconciled(Some(existing), new, session_id, source, now, snapshot),
    ensures
        existing.pending_turn_count < u32::MAX ==> new.pending_turn_count == existing.pending_turn_count + 1,
        new.pending_turn_count >= existing.pending_turn_count,
{
}

} // verus!
