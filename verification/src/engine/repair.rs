//! Rebuilding a stream's state from its hidden ref, and settling interrupted intents.
use vstd::prelude::*;

use crate::domain::ids::{
    fingerprint_inputs, hash_hex, snapshot_fingerprint, spec_snapshot_fingerprint,
};
use crate::domain::intent::{same_move, CheckpointIntent, IntentPhase};
use crate::domain::journal::{recovery, JournalEvent};
use crate::domain::manager::{AnchorState, ManagerState};
use crate::domain::manifest::{StrictEntry, StrictSnapshot};
use crate::domain::policy::{spec_matches_owned_path, Policy, PolicyEpoch};
use crate::domain::repopath::RepoPath;
use crate::domain::session::{
    copy_opt_string, same_stream, Observation, StreamClass, StreamIdentity,
};
use crate::domain::session_tracker::opt_text;
use crate::order::{key_is, keys, sort_stable, sorted};
use crate::text::{push_str, str_eq};

verus! {

/// What a stream's state is rebuilt from: the hidden-ref commit, the metadata its message
/// records, and the snapshot of its tree.
pub struct HiddenRefManagerInput<'a> {
    pub stream: &'a StreamIdentity,
    pub commit_oid: &'a str,
    pub generation: u64,
    pub policy_epoch: &'a str,
    pub stream_class: &'a StreamClass,
    pub observed_head_oid: &'a Option<String>,
    pub observed_head_ref: &'a Option<String>,
    pub observed_fingerprint: Option<String>,
    pub now: i64,
    pub snapshot: &'a StrictSnapshot,
}

/// The state rebuilt from a hidden ref: anchored at its commit, nothing pending, the
/// snapshot last seen now.
pub open spec fn is_rebuilt_manager(m: ManagerState, input: HiddenRefManagerInput) -> bool {
    &&& m.version == 3
    &&& same_stream(m.stream, *input.stream)
    &&& m.generation == input.generation
    &&& m.anchor.checkpoint_commit_oid@ == input.commit_oid@
    &&& m.anchor.manifest_id@ == input.snapshot.manifest_id@
    &&& m.anchor.materialized_fingerprint@ == input.snapshot.materialized_fingerprint@
    &&& opt_text(m.anchor.observed_fingerprint) == opt_text(input.observed_fingerprint)
    &&& m.anchor.policy_epoch@ == input.policy_epoch@
    &&& m.anchor.stream_class@ == input.stream_class@
    &&& opt_text(m.anchor.observed_head_oid) == opt_text(*input.observed_head_oid)
    &&& opt_text(m.anchor.observed_head_ref) == opt_text(*input.observed_head_ref)
    &&& m.anchor.materialized_at == input.now
    &&& m.pending is None
    &&& m.last_seen matches Some(o) && {
        &&& o.materialized_fingerprint@ == input.snapshot.materialized_fingerprint@
        &&& opt_text(o.observed_fingerprint) == opt_text(input.snapshot.observed_fingerprint)
        &&& o.manifest_id@ == input.snapshot.manifest_id@
        &&& o.seen_at == input.now
        &&& opt_text(o.observed_head_oid) == opt_text(*input.observed_head_oid)
    }
    &&& m.active_sessions@.len() == 0
}

/// Rebuilds a stream's manager state from its hidden-ref commit.
pub fn build_manager_from_hidden_ref(input: HiddenRefManagerInput<'_>) -> (m: ManagerState)
    ensures
        is_rebuilt_manager(m, input),
{
    let observed_fingerprint = copy_opt_string(&input.observed_fingerprint);
    ManagerState {
        version: 3,
        stream: input.stream.duplicate(),
        generation: input.generation,
        anchor: AnchorState {
            checkpoint_commit_oid: input.commit_oid.to_string(),
            manifest_id: input.snapshot.manifest_id.clone(),
            materialized_fingerprint: input.snapshot.materialized_fingerprint.clone(),
            observed_fingerprint,
            policy_epoch: input.policy_epoch.to_string(),
            stream_class: input.stream_class.duplicate(),
            observed_head_oid: copy_opt_string(input.observed_head_oid),
            observed_head_ref: copy_opt_string(input.observed_head_ref),
            materialized_at: input.now,
        },
        pending: None,
        last_seen: Some(
            Observation {
                materialized_fingerprint: input.snapshot.materialized_fingerprint.clone(),
                observed_fingerprint: copy_opt_string(&input.snapshot.observed_fingerprint),
                manifest_id: input.snapshot.manifest_id.clone(),
                seen_at: input.now,
                observed_head_oid: copy_opt_string(input.observed_head_oid),
            },
        ),
        active_sessions: Vec::new(),
    }
}

/// Whether the policy changed since the anchor was made.
pub fn policy_epoch_changed(manager: &ManagerState, policy_epoch: &PolicyEpoch) -> (r: bool)
    ensures
        r == (manager.anchor.policy_epoch@ != policy_epoch.0@),
{
    !str_eq(manager.anchor.policy_epoch.as_str(), policy_epoch.0.as_str())
}

/// A cached state is stale when there is none, or when it disagrees with the state rebuilt
/// from the hidden ref on the anchor commit, fingerprint or policy epoch.
pub open spec fn spec_cache_is_stale(current: Option<ManagerState>, rebuilt: ManagerState) -> bool {
    match current {
        None => true,
        Some(c) => c.anchor.checkpoint_commit_oid@ != rebuilt.anchor.checkpoint_commit_oid@
            || c.anchor.materialized_fingerprint@ != rebuilt.anchor.materialized_fingerprint@
            || c.anchor.policy_epoch@ != rebuilt.anchor.policy_epoch@,
    }
}

/// Whether the cached manager state must be replaced by the rebuilt one.
pub fn cache_is_stale(current: &Option<ManagerState>, rebuilt: &ManagerState) -> (r: bool)
    ensures
        r == spec_cache_is_stale(*current, *rebuilt),
{
    match current {
        None => true,
        Some(c) => !str_eq(
            c.anchor.checkpoint_commit_oid.as_str(),
            rebuilt.anchor.checkpoint_commit_oid.as_str(),
        ) || !str_eq(
            c.anchor.materialized_fingerprint.as_str(),
            rebuilt.anchor.materialized_fingerprint.as_str(),
        ) || !str_eq(c.anchor.policy_epoch.as_str(), rebuilt.anchor.policy_epoch.as_str()),
    }
}

/// The phase a prepared intent settles to once the hidden ref has been read: updated when
/// the ref points at its commit, aborted otherwise. Intents in any other phase need nothing.
pub open spec fn settled_phase(latest: CheckpointIntent, hidden_ref_oid: Option<Seq<char>>) -> Option<
    IntentPhase,
> {
    if latest.phase != IntentPhase::Prepared {
        None
    } else if hidden_ref_oid == Some(latest.checkpoint_commit_oid@) {
        Some(IntentPhase::RefUpdated)
    } else {
        Some(IntentPhase::Aborted)
    }
}

/// The optional text of an optional string slice.
pub open spec fn opt_str(o: Option<&str>) -> Option<Seq<char>> {
    match o {
        Some(s) => Some(s@),
        None => None,
    }
}

/// The stream state to use after rebuilding it from the hidden ref, and the recovery event to
/// journal (the state is then saved too), if any.
#[derive(Debug)]
pub struct CacheRefresh {
    pub manager: ManagerState,
    pub recovery: Option<JournalEvent>,
}

/// Chooses between the cached and the rebuilt stream state: the cached one while it agrees
/// with the hidden ref, the rebuilt one otherwise. When the cache was stale or the anchor's
/// manifest was missing, the chosen state is saved and a recovery is journaled.
pub fn refresh_cached_manager(
    current: Option<ManagerState>,
    rebuilt: ManagerState,
    manifest_missing: bool,
    stream_id: &str,
    commit_oid: &str,
    now: i64,
) -> (r: CacheRefresh)
    ensures
        r.manager == (if spec_cache_is_stale(current, rebuilt) {
            rebuilt
        } else {
            current->0
        }),
        r.recovery is Some <==> (spec_cache_is_stale(current, rebuilt) || manifest_missing),
        r.recovery matches Some(e) ==> e matches JournalEvent::Recovery {
            ts,
            stream_id: s,
            reason,
            commit_oid: Some(c),
        } && ts == now && s@ == stream_id@ && reason@ == "rebuilt-caches-from-hidden-ref"@ && c@
            == commit_oid@,
{
    let stale = cache_is_stale(&current, &rebuilt);
    let manager = match current {
        Some(cached) if !stale => cached,
        _ => rebuilt,
    };
    let recovery = if stale || manifest_missing {
        Some(recovery(now, stream_id, "rebuilt-caches-from-hidden-ref", Some(commit_oid)))
    } else {
        None
    };
    CacheRefresh { manager, recovery }
}

/// The record to append for the latest intent, if it was left prepared: the same move,
/// updated or aborted at `now`.
pub fn reconcile_latest_intent(
    intents: &[CheckpointIntent],
    hidden_ref_oid: Option<&str>,
    now: i64,
) -> (r: Option<CheckpointIntent>)
    ensures
        intents@.len() == 0 ==> r is None,
        intents@.len() > 0 ==> match settled_phase(intents@.last(), opt_str(hidden_ref_oid)) {
            None => r is None,
            Some(p) => r matches Some(i) && same_move(i, intents@.last()) && i.phase == p && i.ts
                == now,
        },
{
    if intents.len() == 0 {
        return None;
    }
    let latest = &intents[intents.len() - 1];
    if latest.phase != IntentPhase::Prepared {
        return None;
    }
    let updated = match hidden_ref_oid {
        Some(oid) => str_eq(oid, latest.checkpoint_commit_oid.as_str()),
        None => false,
    };
    if updated {
        Some(latest.with_phase(IntentPhase::RefUpdated, now))
    } else {
        Some(latest.with_phase(IntentPhase::Aborted, now))
    }
}

/// Whether the latest intent, for the anchor commit, still has to be marked finalized.
pub open spec fn needs_finalizing(latest: CheckpointIntent, anchor_commit_oid: Seq<char>) -> bool {
    &&& latest.checkpoint_commit_oid@ == anchor_commit_oid
    &&& (latest.phase == IntentPhase::Prepared || latest.phase == IntentPhase::RefUpdated)
}

/// Recovery asks for each record once. The record that settles a prepared intent (updated
/// when the ref points at its commit, aborted otherwise) is itself settled; the finalized
/// record of the same move needs nothing more; and the settled record needs finalizing
/// exactly when the ref was updated to the commit that is now the anchor.
pub proof fn law_recovery_is_idempotent(
    latest: CheckpointIntent,
    settled: CheckpointIntent,
    finalized: CheckpointIntent,
    hidden_ref_oid: Option<Seq<char>>,
    anchor_commit_oid: Seq<char>,
)
    requires
        settled_phase(latest, hidden_ref_oid) == Some(settled.phase),
        same_move(settled, latest),
        same_move(finalized, latest),
        finalized.phase == IntentPhase::Finalized,
    ensures
        settled_phase(settled, hidden_ref_oid) is None,
        settled_phase(finalized, hidden_ref_oid) is None,
        !needs_finalizing(finalized, anchor_commit_oid),
        needs_finalizing(settled, anchor_commit_oid) <==> (hidden_ref_oid == Some(
            latest.checkpoint_commit_oid@,
        ) && latest.checkpoint_commit_oid@ == anchor_commit_oid),
{
}

/// The finalized record to append for the latest intent, when it moved the ref to the
/// current anchor and was not finalized or aborted yet.
pub fn finalize_latest_intent_if_needed(
    intents: &[CheckpointIntent],
    manager: &ManagerState,
    now: i64,
) -> (r: Option<CheckpointIntent>)
    ensures
        intents@.len() == 0 ==> r is None,
        intents@.len() > 0 ==> if needs_finalizing(
            intents@.last(),
            manager.anchor.checkpoint_commit_oid@,
        ) {
            r matches Some(i) && same_move(i, intents@.last()) && i.phase == IntentPhase::Finalized
                && i.ts == now
        } else {
            r is None
        },
{
    if intents.len() == 0 {
        return None;
    }
    let latest = &intents[intents.len() - 1];
    if !str_eq(latest.checkpoint_commit_oid.as_str(), manager.anchor.checkpoint_commit_oid.as_str()) {
        return None;
    }
    if latest.phase == IntentPhase::Finalized || latest.phase == IntentPhase::Aborted {
        return None;
    }
    Some(latest.with_phase(IntentPhase::Finalized, now))
}

/// One entry of a tree listing.
#[derive(Debug, Clone)]
pub struct TreeEntry {
    pub mode: u32,
    pub kind: String,
    pub oid: String,
    pub path: RepoPath,
}

/// The tree entries a snapshot keeps: owned blobs.
pub open spec fn keeps_tree_entry(policy: Policy, e: TreeEntry) -> bool {
    spec_matches_owned_path(policy, e.path@) && e.kind@ == "blob"@
}

/// The test that keeps a tree entry.
pub open spec fn tree_entry_kept(policy: Policy) -> spec_fn(TreeEntry) -> bool {
    |e: TreeEntry| keeps_tree_entry(policy, e)
}

/// The owned blobs of a tree listing, in listing order.
pub fn owned_blob_entries(policy: &Policy, entries: Vec<TreeEntry>) -> (r: Vec<TreeEntry>)
    ensures
        r@ == entries@.filter(tree_entry_kept(*policy)),
{
    let ghost orig = entries@;
    let mut rest = entries;
    let mut r: Vec<TreeEntry> = Vec::new();
    let ghost mut i: int = 0;
    assert(orig.take(0).filter(tree_entry_kept(*policy)) =~= Seq::<TreeEntry>::empty()) by {
        reveal(Seq::filter);
    }
    assert(orig.skip(0) =~= orig);
    while rest.len() > 0
        invariant
            0 <= i <= orig.len(),
            rest@ == orig.skip(i),
            r@ == orig.take(i).filter(tree_entry_kept(*policy)),
        decreases rest.len(),
    {
        let e = rest.remove(0);
        proof {
            reveal(Seq::filter);
            assert(orig.take(i + 1).drop_last() =~= orig.take(i));
            assert(orig.take(i + 1).last() == e);
            i = i + 1;
            assert(rest@ =~= orig.skip(i));
        }
        if policy.matches_owned_path(&e.path) && str_eq(e.kind.as_str(), "blob") {
            r.push(e);
        }
    }
    assert(orig.take(orig.len() as int) =~= orig);
    r
}

/// The content digest of file bytes: `blake3:` and the BLAKE3 hash in hex.
pub fn content_digest(bytes: &[u8]) -> (d: String)
    ensures
        d@ == "blake3:"@ + crate::domain::ids::blake3_hex(bytes@),
{
    let mut d = String::from_str("blake3:");
    let hex = hash_hex(bytes);
    push_str(&mut d, hex.as_str());
    d
}

/// The strict entry of a tree blob, given the blob's bytes.
pub fn strict_entry_from_tree(entry: TreeEntry, bytes: &[u8]) -> (e: StrictEntry)
    ensures
        e.path@ == entry.path@,
        e.mode == entry.mode,
        e.git_oid@ == entry.oid@,
        e.observed_digest@ == "blake3:"@ + crate::domain::ids::blake3_hex(bytes@),
{
    let observed_digest = content_digest(bytes);
    StrictEntry { path: entry.path, mode: entry.mode, observed_digest, git_oid: entry.oid }
}

/// The fingerprint inputs of entries, by Git object id.
pub open spec fn materialized_inputs(s: Seq<StrictEntry>) -> Seq<(Seq<u8>, u32, Seq<char>)> {
    s.map_values(|e: StrictEntry| (e.path@, e.mode, e.git_oid@))
}

/// The fingerprint inputs of entries, by content digest.
pub open spec fn observed_inputs(s: Seq<StrictEntry>) -> Seq<(Seq<u8>, u32, Seq<char>)> {
    s.map_values(|e: StrictEntry| (e.path@, e.mode, e.observed_digest@))
}

fn fingerprint_by_oid(entries: &Vec<StrictEntry>) -> (r: String)
    ensures
        r@ == spec_snapshot_fingerprint(materialized_inputs(entries@)),
{
    let mut inputs: Vec<(&[u8], u32, &str)> = Vec::new();
    let mut i: usize = 0;
    while i < entries.len()
        invariant
            i <= entries.len(),
            fingerprint_inputs(inputs@) == materialized_inputs(entries@.take(i as int)),
        decreases entries.len() - i,
    {
        let e = &entries[i];
        let ghost before = inputs@;
        let t = (e.path.as_bytes(), e.mode, e.git_oid.as_str());
        assert(t.0@ == e.path@ && t.2@ == e.git_oid@);
        inputs.push(t);
        proof {
            assert(entries@.take(i + 1) =~= entries@.take(i as int).push(entries@[i as int]));
            assert(fingerprint_inputs(before.push(t)) =~= fingerprint_inputs(before).push(
                (t.0@, t.1, t.2@),
            ));
            assert(fingerprint_inputs(inputs@) =~= materialized_inputs(entries@.take(i + 1)));
        }
        i = i + 1;
    }
    assert(entries@.take(entries@.len() as int) =~= entries@);
    snapshot_fingerprint(inputs.as_slice())
}

fn fingerprint_by_digest(entries: &Vec<StrictEntry>) -> (r: String)
    ensures
        r@ == spec_snapshot_fingerprint(observed_inputs(entries@)),
{
    let mut inputs: Vec<(&[u8], u32, &str)> = Vec::new();
    let mut i: usize = 0;
    while i < entries.len()
        invariant
            i <= entries.len(),
            fingerprint_inputs(inputs@) == observed_inputs(entries@.take(i as int)),
        decreases entries.len() - i,
    {
        let e = &entries[i];
        let ghost before = inputs@;
        let t = (e.path.as_bytes(), e.mode, e.observed_digest.as_str());
        assert(t.0@ == e.path@ && t.2@ == e.observed_digest@);
        inputs.push(t);
        proof {
            assert(entries@.take(i + 1) =~= entries@.take(i as int).push(entries@[i as int]));
            assert(fingerprint_inputs(before.push(t)) =~= fingerprint_inputs(before).push(
                (t.0@, t.1, t.2@),
            ));
            assert(fingerprint_inputs(inputs@) =~= observed_inputs(entries@.take(i + 1)));
        }
        i = i + 1;
    }
    assert(entries@.take(entries@.len() as int) =~= entries@);
    snapshot_fingerprint(inputs.as_slice())
}

/// A snapshot of entries: sorted by path (entries with the same path keep their order),
/// fingerprinted by object ids (which is also its manifest id) and by content digests.
pub open spec fn is_snapshot_of(s: StrictSnapshot, entries: Seq<StrictEntry>) -> bool {
    &&& sorted(keys(s.entries@))
    &&& s.entries@.to_multiset() == entries.to_multiset()
    &&& forall|k: Seq<int>| #[trigger] s.entries@.filter(key_is(k)) == entries.filter(key_is(k))
    &&& s.materialized_fingerprint@ == spec_snapshot_fingerprint(materialized_inputs(s.entries@))
    &&& s.observed_fingerprint matches Some(f) && f@ == spec_snapshot_fingerprint(
        observed_inputs(s.entries@),
    )
    &&& s.manifest_id@ == s.materialized_fingerprint@
}

/// Builds the snapshot of a set of entries.
pub fn snapshot_of_entries(entries: Vec<StrictEntry>) -> (s: StrictSnapshot)
    ensures
        is_snapshot_of(s, entries@),
{
    let sorted_entries = sort_stable(entries);
    let materialized_fingerprint = fingerprint_by_oid(&sorted_entries);
    let observed_fingerprint = fingerprint_by_digest(&sorted_entries);
    StrictSnapshot {
        materialized_fingerprint: materialized_fingerprint.clone(),
        observed_fingerprint: Some(observed_fingerprint),
        manifest_id: materialized_fingerprint,
        entries: sorted_entries,
    }
}


/// The Git mode of a worktree file: a symlink, an executable file (any execute bit set) or
/// a regular file; nothing for other kinds of entry.
pub open spec fn spec_worktree_mode(is_symlink: bool, is_file: bool, permission_bits: u32) -> Option<u32> {
    if is_symlink {
        Some(0o120000u32)
    } else if is_file {
        if permission_bits & 0o111u32 != 0 {
            Some(0o100755u32)
        } else {
            Some(0o100644u32)
        }
    } else {
        None
    }
}

/// The Git mode under which a worktree file is recorded.
pub fn worktree_mode(is_symlink: bool, is_file: bool, permission_bits: u32) -> (r: Option<u32>)
    ensures
        r == spec_worktree_mode(is_symlink, is_file, permission_bits),
{
    if is_symlink {
        Some(0o120000u32)
    } else if is_file {
        if permission_bits & 0o111u32 != 0 {
            Some(0o100755u32)
        } else {
            Some(0o100644u32)
        }
    } else {
        None
    }
}

} // verus!
