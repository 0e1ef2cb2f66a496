//! Session attribution: which sessions touch which paths, and commit plans.
use vstd::prelude::*;

use crate::domain::delta::{find_in_index, is_path_index, lookup, same_entry, same_entry_view, entries_by_path};
use crate::domain::ids::{snapshot_fingerprint, spec_snapshot_fingerprint};
use crate::domain::manifest::{StrictEntry, StrictSnapshot};
use crate::domain::repopath::{lemma_byte_key_injective, RepoPath};
use crate::domain::session_tracker::{
    reason_rank, spec_entry_oid, opt_text, spec_thresholds_met, thresholds_met, BlockedPath,
    CommitBlockReason, CommitPlan, PathClaimState, SessionThresholdInput, SessionTracker,
    TrackedPath, TrackedPathState, entry_oid,
};
use crate::order::{
    byte_key, char_key, has_key, insert_sorted_unique, upsert_sorted, keys, lemma_char_key_injective,
    lemma_lex_irreflexive, lemma_sorted_strings_set, lex_lt, sort_unique, strictly_sorted, SortKey,
};
use crate::text::str_eq;

verus! {

/// A tracker lists the path among its touched paths.
pub open spec fn touches(t: SessionTracker, p: Seq<u8>) -> bool {
    has_key(t.touched_paths@, byte_key(p))
}

/// The sessions (by id) of the trackers that touched a path.
pub open spec fn touching_ids(trackers: Seq<SessionTracker>, p: Seq<u8>) -> Set<Seq<char>> {
    Set::new(|s: Seq<char>| exists|i: int| 0 <= i < trackers.len() && #[trigger] trackers[i].session_id@ == s && touches(trackers[i], p))
}

/// A sorted, duplicate-free list of exactly the given names.
pub open spec fn is_sorted_names(v: Seq<String>, set: Set<Seq<char>>) -> bool {
    &&& strictly_sorted(keys(v))
    &&& forall|s: Seq<char>| #[trigger] has_key(v, char_key(s)) <==> set.contains(s)
}

/// Position of a path among a tracker's touched paths.
pub fn find_tracked(v: &Vec<TrackedPath>, path: &RepoPath) -> (r: Option<usize>)
    ensures
        r matches Some(i) ==> i < v@.len() && v@[i as int].path@ == path@,
        r is None ==> !has_key(v@, byte_key(path@)),
{
    let mut i: usize = 0;
    while i < v.len()
        invariant
            i <= v.len(),
            forall|k: int| 0 <= k < i ==> #[trigger] v@[k].key() != byte_key(path@),
        decreases v.len() - i,
    {
        if v[i].path.same_as(path) {
            return Some(i);
        }
        proof { lemma_byte_key_injective(v@[i as int].path@, path@); }
        i = i + 1;
    }
    None
}

/// The sessions of the given trackers that touched a path, sorted and without duplicates.
pub fn sessions_touching_path(trackers: &[SessionTracker], path: &RepoPath) -> (res: Vec<String>)
    ensures
        is_sorted_names(res@, touching_ids(trackers@, path@)),
        touching_ids(trackers@, path@).finite(),
        res@.len() == touching_ids(trackers@, path@).len(),
{
    let mut ids: Vec<String> = Vec::new();
    let mut i: usize = 0;
    while i < trackers.len()
        invariant
            i <= trackers.len(),
            forall|s: Seq<char>| has_key(ids@, char_key(s)) <==> exists|j: int| 0 <= j < i && #[trigger] trackers@[j].session_id@ == s && touches(trackers@[j], path@),
        decreases trackers.len() - i,
    {
        let ghost before = ids@;
        let found = find_tracked(&trackers[i].touched_paths, path);
        if let Some(k) = found {
            ids.push(trackers[i].session_id.clone());
            proof {
                assert(trackers@[i as int].touched_paths@[k as int].key() == byte_key(path@));
                assert(touches(trackers@[i as int], path@));
            }
        }
        proof {
            let n = i + 1;
            assert forall|s: Seq<char>| has_key(ids@, char_key(s)) implies exists|j: int| 0 <= j < n && #[trigger] trackers@[j].session_id@ == s && touches(trackers@[j], path@) by {
                let m = choose|m: int| 0 <= m < ids@.len() && #[trigger] ids@[m].key() == char_key(s);
                if m < before.len() {
                    assert(ids@[m] == before[m]);
                    assert(has_key(before, char_key(s)));
                } else {
                    lemma_char_key_injective(ids@[m]@, s);
                    assert(found is Some);
                    assert(trackers@[i as int].session_id@ == s);
                    assert(touches(trackers@[i as int], path@));
                }
            }
            assert forall|s: Seq<char>| (exists|j: int| 0 <= j < n && #[trigger] trackers@[j].session_id@ == s && touches(trackers@[j], path@)) implies has_key(ids@, char_key(s)) by {
                let j = choose|j: int| 0 <= j < n && #[trigger] trackers@[j].session_id@ == s && touches(trackers@[j], path@);
                if j < i {
                    assert(has_key(before, char_key(s)));
                    let m = choose|m: int| 0 <= m < before.len() && #[trigger] before[m].key() == char_key(s);
                    assert(ids@[m] == before[m]);
                } else {
                    assert(found is Some);
                    assert(ids@[before.len() as int]@ == s);
                    assert(ids@[before.len() as int].key() == char_key(s));
                }
            }
        }
        i = i + 1;
    }
    let res = sort_unique(ids);
    proof {
        assert forall|s: Seq<char>| #[trigger] has_key(res@, char_key(s)) <==> touching_ids(trackers@, path@).contains(s) by {}
        lemma_sorted_strings_set(res@);
        let t = res@.map_values(|x: String| x@);
        assert forall|s: Seq<char>| t.to_set().contains(s) <==> touching_ids(trackers@, path@).contains(s) by {
            if t.to_set().contains(s) {
                let m = choose|m: int| 0 <= m < t.len() && t[m] == s;
                assert(res@[m].key() == char_key(s));
                assert(has_key(res@, char_key(s)));
            }
            if touching_ids(trackers@, path@).contains(s) {
                assert(has_key(res@, char_key(s)));
                let m = choose|m: int| 0 <= m < res@.len() && #[trigger] res@[m].key() == char_key(s);
                lemma_char_key_injective(res@[m]@, s);
                assert(t[m] == s);
            }
        }
        assert(t.to_set() =~= touching_ids(trackers@, path@));
    }
    res
}

/// A session id that can be attributed (not the placeholder used when Codex sends none).
pub open spec fn spec_stable_session_id(value: Seq<char>) -> bool {
    value != "session-current"@
}

/// Whether a session id can be attributed.
pub fn stable_session_id(value: &str) -> (r: bool)
    ensures
        r == spec_stable_session_id(value@),
{
    !str_eq(value, "session-current")
}

/// The snapshot of no files (the start of a session on a repository without commits): every
/// fingerprint and the manifest id are the fingerprint of the empty list.
pub fn empty_snapshot() -> (s: StrictSnapshot)
    ensures
        s.entries@.len() == 0,
        s.materialized_fingerprint@ == spec_snapshot_fingerprint(Seq::empty()),
        s.observed_fingerprint matches Some(f) && f@ == spec_snapshot_fingerprint(Seq::empty()),
        s.manifest_id@ == spec_snapshot_fingerprint(Seq::empty()),
{
    let none: Vec<(&[u8], u32, &str)> = Vec::new();
    let fingerprint = snapshot_fingerprint(none.as_slice());
    proof {
        assert(crate::domain::ids::fingerprint_inputs(none@) =~= Seq::empty());
    }
    StrictSnapshot {
        materialized_fingerprint: fingerprint.clone(),
        observed_fingerprint: Some(fingerprint.clone()),
        manifest_id: fingerprint,
        entries: Vec::new(),
    }
}

/// Whether two optional strings hold the same text.
pub fn opt_str_eq(a: &Option<String>, b: &Option<String>) -> (r: bool)
    ensures
        r == (opt_text(*a) == opt_text(*b)),
{
    match (a, b) {
        (None, None) => true,
        (Some(x), Some(y)) => str_eq(x.as_str(), y.as_str()),
        _ => false,
    }
}

/// The reasons in a list, as a set.
pub open spec fn reason_set(v: Seq<CommitBlockReason>) -> Set<CommitBlockReason> {
    v.to_set()
}

/// Adds a reason to a sorted, duplicate-free list of reasons.
pub fn add_reason(v: &mut Vec<CommitBlockReason>, r: CommitBlockReason)
    requires
        strictly_sorted(keys(old(v)@)),
    ensures
        strictly_sorted(keys(final(v)@)),
        reason_set(final(v)@) == reason_set(old(v)@).insert(r),
{
    let ghost before = v@;
    let inserted = insert_sorted_unique(v, r);
    proof {
        if inserted {
            let pos = choose|pos: int| 0 <= pos <= before.len() && v@ == before.insert(pos, r);
            assert forall|x: CommitBlockReason| reason_set(v@).contains(x) <==> reason_set(before).insert(r).contains(x) by {
                if reason_set(v@).contains(x) {
                    let m = choose|m: int| 0 <= m < v@.len() && v@[m] == x;
                    if m < pos {
                        assert(v@[m] == before[m]);
                    } else if m > pos {
                        assert(v@[m] == before[m - 1]);
                    }
                }
                if reason_set(before).contains(x) {
                    let m = choose|m: int| 0 <= m < before.len() && before[m] == x;
                    if m < pos {
                        assert(v@[m] == before[m]);
                    } else {
                        assert(v@[m + 1] == before[m]);
                    }
                }
                if x == r {
                    assert(v@[pos] == r);
                }
            }
            assert(reason_set(v@) =~= reason_set(before).insert(r));
        } else {
            let m = choose|m: int| 0 <= m < before.len() && #[trigger] before[m].key() == r.key();
            assert(seq![reason_rank(before[m])][0] == seq![reason_rank(r)][0]);
            assert(before[m] == r);
            assert(reason_set(before).contains(r));
            assert(reason_set(v@) =~= reason_set(before).insert(r));
        }
    }
}

/// How many touched paths are held exclusively.
pub open spec fn exclusive_count(s: Seq<TrackedPath>) -> nat
    decreases s.len(),
{
    if s.len() == 0 {
        0
    } else {
        exclusive_count(s.drop_last()) + (if s.last().state.claim_state == PathClaimState::Exclusive {
            1nat
        } else {
            0nat
        })
    }
}

/// The reason a claim state blocks a path, if it does.
pub open spec fn claim_reasons(c: PathClaimState) -> Set<CommitBlockReason> {
    match c {
        PathClaimState::Exclusive => Set::empty(),
        PathClaimState::InheritedDirty => set![CommitBlockReason::PathInheritedDirty],
        PathClaimState::Contended => set![CommitBlockReason::PathContended],
        PathClaimState::ExternalInterference => set![CommitBlockReason::ExternalInterference],
    }
}

/// Why one touched path cannot be committed: its claim, more active sessions touching it than
/// when it was claimed, or a current blob different from the one recorded.
pub open spec fn path_reason_set(tp: TrackedPath, current: Seq<StrictEntry>, active: Seq<SessionTracker>) -> Set<CommitBlockReason> {
    claim_reasons(tp.state.claim_state).union(
        if touching_ids(active, tp.path@).len() > tp.state.other_sessions@.len() {
            set![CommitBlockReason::PathContended]
        } else {
            Set::empty()
        },
    ).union(
        if spec_entry_oid(lookup(current, tp.path@)) != opt_text(tp.state.current_oid) {
            set![CommitBlockReason::ExternalInterference]
        } else {
            Set::empty()
        },
    )
}

/// The path still differs from the worktree at the start of the session's epoch.
pub open spec fn considered(tp: TrackedPath, current: Seq<StrictEntry>, epoch_start: Seq<StrictEntry>) -> bool {
    !same_entry_view(lookup(current, tp.path@), lookup(epoch_start, tp.path@))
}

/// The touched paths (in order) that could be committed now.
pub open spec fn eligible_spec(s: Seq<TrackedPath>, current: Seq<StrictEntry>, epoch_start: Seq<StrictEntry>, active: Seq<SessionTracker>) -> Seq<Seq<u8>>
    decreases s.len(),
{
    if s.len() == 0 {
        Seq::empty()
    } else {
        let prev = eligible_spec(s.drop_last(), current, epoch_start, active);
        let tp = s.last();
        if considered(tp, current, epoch_start) && path_reason_set(tp, current, active) == Set::<CommitBlockReason>::empty() {
            prev.push(tp.path@)
        } else {
            prev
        }
    }
}

/// The touched paths (in order) that are blocked, with their reasons.
pub open spec fn blocked_spec(s: Seq<TrackedPath>, current: Seq<StrictEntry>, epoch_start: Seq<StrictEntry>, active: Seq<SessionTracker>) -> Seq<(Seq<u8>, Set<CommitBlockReason>)>
    decreases s.len(),
{
    if s.len() == 0 {
        Seq::empty()
    } else {
        let prev = blocked_spec(s.drop_last(), current, epoch_start, active);
        let tp = s.last();
        if considered(tp, current, epoch_start) && path_reason_set(tp, current, active) != Set::<CommitBlockReason>::empty() {
            prev.push((tp.path@, path_reason_set(tp, current, active)))
        } else {
            prev
        }
    }
}

/// The byte keys of a list of paths.
pub open spec fn path_keys(v: Seq<Seq<u8>>) -> Seq<Seq<int>> {
    v.map_values(|p: Seq<u8>| byte_key(p))
}

/// The byte keys of the paths of a list of blocked paths.
pub open spec fn blocked_keys(v: Seq<(Seq<u8>, Set<CommitBlockReason>)>) -> Seq<Seq<int>> {
    v.map_values(|b: (Seq<u8>, Set<CommitBlockReason>)| byte_key(b.0))
}

/// Each eligible path is a touched path that nothing blocks.
pub open spec fn eligible_from(el: Seq<Seq<u8>>, s: Seq<TrackedPath>, current: Seq<StrictEntry>, active: Seq<SessionTracker>) -> bool {
    forall|i: int| 0 <= i < el.len() ==> exists|j: int|
        0 <= j < s.len() && (#[trigger] s[j]).path@ == #[trigger] el[i]
            && path_reason_set(s[j], current, active) == Set::<CommitBlockReason>::empty()
}

/// Each blocked path is a touched path that something blocks.
pub open spec fn blocked_from(bl: Seq<(Seq<u8>, Set<CommitBlockReason>)>, s: Seq<TrackedPath>, current: Seq<StrictEntry>, active: Seq<SessionTracker>) -> bool {
    forall|i: int| 0 <= i < bl.len() ==> exists|j: int|
        0 <= j < s.len() && (#[trigger] s[j]).path@ == (#[trigger] bl[i]).0
            && path_reason_set(s[j], current, active) != Set::<CommitBlockReason>::empty()
}

/// Over touched paths sorted by path without repeats, the eligible paths and the blocked
/// paths each come out sorted without repeats, and no path is in both: each comes from one
/// touched path, eligible when nothing blocks it and blocked otherwise.
pub proof fn lemma_plan_lists_ordered(
    s: Seq<TrackedPath>,
    current: Seq<StrictEntry>,
    epoch_start: Seq<StrictEntry>,
    active: Seq<SessionTracker>,
)
    requires
        strictly_sorted(keys(s)),
    ensures
        strictly_sorted(path_keys(eligible_spec(s, current, epoch_start, active))),
        strictly_sorted(blocked_keys(blocked_spec(s, current, epoch_start, active))),
        eligible_from(eligible_spec(s, current, epoch_start, active), s, current, active),
        blocked_from(blocked_spec(s, current, epoch_start, active), s, current, active),
        forall|i: int, k: int|
            0 <= i < eligible_spec(s, current, epoch_start, active).len() && 0 <= k < blocked_spec(
                s,
                current,
                epoch_start,
                active,
            ).len() ==> #[trigger] eligible_spec(s, current, epoch_start, active)[i] != (
            #[trigger] blocked_spec(s, current, epoch_start, active)[k]).0,
    decreases s.len(),
{
    let el = eligible_spec(s, current, epoch_start, active);
    let bl = blocked_spec(s, current, epoch_start, active);
    if s.len() == 0 {
        return;
    }
    let pre = s.drop_last();
    assert forall|j: int| 0 <= j < pre.len() implies #[trigger] pre[j] == s[j] by {}
    assert(strictly_sorted(keys(pre))) by {
        assert forall|i: int, j: int| 0 <= i < j < pre.len() implies #[trigger] lex_lt(keys(pre)[i], keys(pre)[j]) by {
            assert(keys(pre)[i] == keys(s)[i] && keys(pre)[j] == keys(s)[j]);
        }
    }
    lemma_plan_lists_ordered(pre, current, epoch_start, active);
    let pel = eligible_spec(pre, current, epoch_start, active);
    let pbl = blocked_spec(pre, current, epoch_start, active);
    let n = s.len() - 1;
    let last = s[n];
    assert(s.last() == last);
    let rs = path_reason_set(last, current, active);
    let is_el = considered(last, current, epoch_start) && rs == Set::<CommitBlockReason>::empty();
    let is_bl = considered(last, current, epoch_start) && rs != Set::<CommitBlockReason>::empty();
    assert(el == (if is_el { pel.push(last.path@) } else { pel }));
    assert(bl == (if is_bl { pbl.push((last.path@, rs)) } else { pbl }));
    // Every path taken from the prefix sorts before the last touched path.
    assert forall|j: int| 0 <= j < n implies lex_lt(byte_key((#[trigger] s[j]).path@), byte_key(last.path@)) by {
        assert(keys(s)[j] == byte_key(s[j].path@));
        assert(keys(s)[n] == byte_key(last.path@));
    }
    assert(eligible_from(el, s, current, active)) by {
        assert forall|i: int| 0 <= i < el.len() implies exists|j: int|
            0 <= j < s.len() && (#[trigger] s[j]).path@ == #[trigger] el[i]
                && path_reason_set(s[j], current, active) == Set::<CommitBlockReason>::empty() by {
            if i < pel.len() {
                assert(el[i] == pel[i]);
                let j = choose|j: int| 0 <= j < pre.len() && (#[trigger] pre[j]).path@ == #[trigger] pel[i]
                    && path_reason_set(pre[j], current, active) == Set::<CommitBlockReason>::empty();
                assert(s[j] == pre[j]);
            } else {
                assert(el[i] == last.path@);
                assert(s[n] == last);
            }
        }
    }
    assert(blocked_from(bl, s, current, active)) by {
        assert forall|i: int| 0 <= i < bl.len() implies exists|j: int|
            0 <= j < s.len() && (#[trigger] s[j]).path@ == (#[trigger] bl[i]).0
                && path_reason_set(s[j], current, active) != Set::<CommitBlockReason>::empty() by {
            if i < pbl.len() {
                assert(bl[i] == pbl[i]);
                let j = choose|j: int| 0 <= j < pre.len() && (#[trigger] pre[j]).path@ == (#[trigger] pbl[i]).0
                    && path_reason_set(pre[j], current, active) != Set::<CommitBlockReason>::empty();
                assert(s[j] == pre[j]);
            } else {
                assert(bl[i] == (last.path@, rs));
                assert(s[n] == last);
            }
        }
    }
    assert(strictly_sorted(path_keys(el))) by {
        assert forall|i: int, j: int| 0 <= i < j < el.len() implies #[trigger] lex_lt(path_keys(el)[i], path_keys(el)[j]) by {
            assert(path_keys(el)[i] == byte_key(el[i]) && path_keys(el)[j] == byte_key(el[j]));
            if j < pel.len() {
                assert(path_keys(pel)[i] == byte_key(pel[i]) && path_keys(pel)[j] == byte_key(pel[j]));
                assert(el[i] == pel[i] && el[j] == pel[j]);
            } else {
                assert(el[i] == pel[i]);
                assert(el[j] == last.path@);
                let k = choose|k: int| 0 <= k < pre.len() && (#[trigger] pre[k]).path@ == #[trigger] pel[i]
                    && path_reason_set(pre[k], current, active) == Set::<CommitBlockReason>::empty();
                assert(s[k] == pre[k]);
            }
        }
    }
    assert(strictly_sorted(blocked_keys(bl))) by {
        assert forall|i: int, j: int| 0 <= i < j < bl.len() implies #[trigger] lex_lt(blocked_keys(bl)[i], blocked_keys(bl)[j]) by {
            assert(blocked_keys(bl)[i] == byte_key(bl[i].0) && blocked_keys(bl)[j] == byte_key(bl[j].0));
            if j < pbl.len() {
                assert(blocked_keys(pbl)[i] == byte_key(pbl[i].0) && blocked_keys(pbl)[j] == byte_key(pbl[j].0));
                assert(bl[i] == pbl[i] && bl[j] == pbl[j]);
            } else {
                assert(bl[i] == pbl[i]);
                assert(bl[j].0 == last.path@);
                let k = choose|k: int| 0 <= k < pre.len() && (#[trigger] pre[k]).path@ == (#[trigger] pbl[i]).0
                    && path_reason_set(pre[k], current, active) != Set::<CommitBlockReason>::empty();
                assert(s[k] == pre[k]);
            }
        }
    }
    assert forall|i: int, k: int| 0 <= i < el.len() && 0 <= k < bl.len() implies #[trigger] el[i] != (#[trigger] bl[k]).0 by {
        if el[i] == bl[k].0 {
            let j1 = choose|j: int| 0 <= j < s.len() && (#[trigger] s[j]).path@ == #[trigger] el[i]
                && path_reason_set(s[j], current, active) == Set::<CommitBlockReason>::empty();
            let j2 = choose|j: int| 0 <= j < s.len() && (#[trigger] s[j]).path@ == (#[trigger] bl[k]).0
                && path_reason_set(s[j], current, active) != Set::<CommitBlockReason>::empty();
            assert(keys(s)[j1] == byte_key(s[j1].path@) && keys(s)[j2] == byte_key(s[j2].path@));
            lemma_lex_irreflexive(keys(s)[j1]);
            if j1 < j2 {
                assert(lex_lt(keys(s)[j1], keys(s)[j2]));
            } else if j2 < j1 {
                assert(lex_lt(keys(s)[j2], keys(s)[j1]));
            }
        }
    }
}

/// Every reason that blocks some considered touched path.
pub open spec fn blocked_union(s: Seq<TrackedPath>, current: Seq<StrictEntry>, epoch_start: Seq<StrictEntry>, active: Seq<SessionTracker>) -> Set<CommitBlockReason>
    decreases s.len(),
{
    if s.len() == 0 {
        Set::empty()
    } else {
        let prev = blocked_union(s.drop_last(), current, epoch_start, active);
        let tp = s.last();
        if considered(tp, current, epoch_start) {
            prev.union(path_reason_set(tp, current, active))
        } else {
            prev
        }
    }
}

/// The blocked paths of a plan, as paths with reason sets.
pub open spec fn blocked_view(v: Seq<BlockedPath>) -> Seq<(Seq<u8>, Set<CommitBlockReason>)> {
    v.map_values(|b: BlockedPath| (b.path@, reason_set(b.reasons@)))
}

/// The paths of a list, as bytes.
pub open spec fn path_views(v: Seq<RepoPath>) -> Seq<Seq<u8>> {
    v.map_values(|p: RepoPath| p@)
}

/// What a commit plan is computed from (the caller reads these from the stores and Git).
pub struct BuildCommitPlanInput<'a> {
    pub tracker: Option<&'a SessionTracker>,
    pub stream_id: &'a str,
    pub head_oid: &'a Option<String>,
    pub current_entries: &'a [StrictEntry],
    pub epoch_start_entries: &'a [StrictEntry],
    pub active_trackers: &'a [SessionTracker],
    pub staged_changes_present: bool,
    pub now: i64,
    pub turn_threshold: u32,
    pub file_threshold: u32,
    pub age_seconds: i64,
}

/// The threshold input of a tracker.
pub open spec fn threshold_input_of(t: SessionTracker, input: BuildCommitPlanInput) -> SessionThresholdInput {
    SessionThresholdInput {
        turn_count_since_reset: t.turn_count_since_reset,
        exclusive_path_count: exclusive_count(t.touched_paths@) as u32,
        first_dirty_at: t.first_dirty_at,
        now_unix: input.now,
        turn_threshold: input.turn_threshold,
        file_threshold: input.file_threshold,
        age_seconds: input.age_seconds,
    }
}

/// The session-wide reasons: unstable id, moved HEAD, staged changes, thresholds not met.
pub open spec fn base_reasons(t: SessionTracker, input: BuildCommitPlanInput, thresholds: bool) -> Set<CommitBlockReason> {
    Set::new(|r: CommitBlockReason|
        (r == CommitBlockReason::UnstableSessionId && !spec_stable_session_id(t.session_id@))
        || (r == CommitBlockReason::HeadMoved && opt_text(*input.head_oid) != opt_text(t.start_head_oid))
        || (r == CommitBlockReason::StagedChangesPresent && input.staged_changes_present)
        || (r == CommitBlockReason::ThresholdsNotMet && !thresholds))
}

/// The plan the inputs call for.
pub open spec fn is_commit_plan(plan: CommitPlan, input: BuildCommitPlanInput) -> bool {
    &&& plan.version == 1
    &&& strictly_sorted(keys(plan.blocking_reasons@))
    &&& forall|i: int| 0 <= i < plan.blocked_paths@.len() ==> strictly_sorted(keys(#[trigger] plan.blocked_paths@[i].reasons@))
    &&& match input.tracker {
        None => {
            &&& plan.session_id@ == Seq::<char>::empty()
            &&& plan.stream_id@ == input.stream_id@
            &&& plan.epoch == 0
            &&& !plan.thresholds_met
            &&& !plan.safe_to_commit
            &&& plan.eligible_paths@.len() == 0
            &&& plan.blocked_paths@.len() == 0
            &&& plan.blocking_reasons@ == seq![CommitBlockReason::MissingTracker]
        },
        Some(t) => {
            let th = spec_thresholds_met(threshold_input_of(*t, input));
            let touched = t.touched_paths@;
            &&& plan.session_id@ == t.session_id@
            &&& plan.stream_id@ == t.stream_id@
            &&& plan.epoch == t.epoch
            &&& plan.thresholds_met == th
            &&& path_views(plan.eligible_paths@) == eligible_spec(touched, input.current_entries@, input.epoch_start_entries@, input.active_trackers@)
            &&& blocked_view(plan.blocked_paths@) == blocked_spec(touched, input.current_entries@, input.epoch_start_entries@, input.active_trackers@)
            &&& reason_set(plan.blocking_reasons@) == base_reasons(*t, input, th).union(
                blocked_union(touched, input.current_entries@, input.epoch_start_entries@, input.active_trackers@))
            &&& plan.safe_to_commit == (th && plan.blocking_reasons@.len() == 0 && plan.eligible_paths@.len() > 0)
        },
    }
}

/// Counts the exclusively held touched paths.
fn count_exclusive(s: &Vec<TrackedPath>) -> (n: usize)
    ensures
        n == exclusive_count(s@),
{
    let mut n: usize = 0;
    let mut i: usize = 0;
    while i < s.len()
        invariant
            i <= s.len(),
            n == exclusive_count(s@.take(i as int)),
            n <= i,
        decreases s.len() - i,
    {
        assert(s@.take(i + 1).drop_last() =~= s@.take(i as int));
        if s[i].state.claim_state == PathClaimState::Exclusive {
            n = n + 1;
        }
        i = i + 1;
    }
    assert(s@.take(s@.len() as int) =~= s@);
    n
}

/// Computes which of a session's touched paths could be committed now, and what blocks the rest.
pub fn build_commit_plan(input: BuildCommitPlanInput<'_>) -> (plan: CommitPlan)
    requires
        input.tracker matches Some(t) ==> strictly_sorted(keys(t.touched_paths@)),
    ensures
        is_commit_plan(plan, input),
        strictly_sorted(keys(plan.eligible_paths@)),
        strictly_sorted(blocked_keys(blocked_view(plan.blocked_paths@))),
        forall|i: int, k: int|
            0 <= i < plan.eligible_paths@.len() && 0 <= k < plan.blocked_paths@.len() ==> (
            #[trigger] plan.eligible_paths@[i])@ != (#[trigger] plan.blocked_paths@[k]).path@,
{
    let tracker = match input.tracker {
        None => {
            let mut reasons: Vec<CommitBlockReason> = Vec::new();
            reasons.push(CommitBlockReason::MissingTracker);
            proof {
                assert(reasons@ =~= seq![CommitBlockReason::MissingTracker]);
            }
            return CommitPlan {
                version: 1,
                session_id: String::new(),
                stream_id: input.stream_id.to_string(),
                epoch: 0,
                thresholds_met: false,
                safe_to_commit: false,
                eligible_paths: Vec::new(),
                blocked_paths: Vec::new(),
                blocking_reasons: reasons,
            };
        },
        Some(t) => t,
    };
    let epoch_map = entries_by_path(input.epoch_start_entries);
    let current_map = entries_by_path(input.current_entries);
    let exclusive = count_exclusive(&tracker.touched_paths);
    let threshold_input = SessionThresholdInput {
        turn_count_since_reset: tracker.turn_count_since_reset,
        exclusive_path_count: #[verifier::truncate] (exclusive as u32),
        first_dirty_at: tracker.first_dirty_at,
        now_unix: input.now,
        turn_threshold: input.turn_threshold,
        file_threshold: input.file_threshold,
        age_seconds: input.age_seconds,
    };
    let met = thresholds_met(&threshold_input);
    let ghost th_in = threshold_input_of(*tracker, input);
    assert(threshold_input == th_in);
    let mut blocking: Vec<CommitBlockReason> = Vec::new();
    let ghost mut base: Set<CommitBlockReason> = Set::empty();
    if !stable_session_id(tracker.session_id.as_str()) {
        add_reason(&mut blocking, CommitBlockReason::UnstableSessionId);
        proof { base = base.insert(CommitBlockReason::UnstableSessionId); }
    }
    if !opt_str_eq(input.head_oid, &tracker.start_head_oid) {
        add_reason(&mut blocking, CommitBlockReason::HeadMoved);
        proof { base = base.insert(CommitBlockReason::HeadMoved); }
    }
    if input.staged_changes_present {
        add_reason(&mut blocking, CommitBlockReason::StagedChangesPresent);
        proof { base = base.insert(CommitBlockReason::StagedChangesPresent); }
    }
    if !met {
        add_reason(&mut blocking, CommitBlockReason::ThresholdsNotMet);
        proof { base = base.insert(CommitBlockReason::ThresholdsNotMet); }
    }
    proof {
        assert(reason_set(Seq::<CommitBlockReason>::empty()) =~= Set::<CommitBlockReason>::empty());
        assert(base =~= base_reasons(*tracker, input, met));
    }
    let ghost touched = tracker.touched_paths@;
    let ghost cur = input.current_entries@;
    let ghost ep = input.epoch_start_entries@;
    let ghost act = input.active_trackers@;
    let mut eligible: Vec<RepoPath> = Vec::new();
    let mut blocked: Vec<BlockedPath> = Vec::new();
    let mut i: usize = 0;
    while i < tracker.touched_paths.len()
        invariant
            i <= touched.len(),
            touched == tracker.touched_paths@,
            cur == input.current_entries@,
            ep == input.epoch_start_entries@,
            act == input.active_trackers@,
            is_path_index(epoch_map@, ep),
            is_path_index(current_map@, cur),
            strictly_sorted(keys(blocking@)),
            reason_set(blocking@) == base.union(blocked_union(touched.take(i as int), cur, ep, act)),
            path_views(eligible@) == eligible_spec(touched.take(i as int), cur, ep, act),
            blocked_view(blocked@) == blocked_spec(touched.take(i as int), cur, ep, act),
            forall|k: int| 0 <= k < blocked@.len() ==> strictly_sorted(keys(#[trigger] blocked@[k].reasons@)),
        decreases touched.len() - i,
    {
        let tp = &tracker.touched_paths[i];
        let ghost pre = touched.take(i as int);
        let ghost post = touched.take(i + 1);
        assert(post.drop_last() =~= pre);
        assert(post.last() == *tp);
        let ci = find_in_index(&current_map, &tp.path);
        let ei = find_in_index(&epoch_map, &tp.path);
        let cur_entry: Option<&StrictEntry> = match ci {
            Some(k) => Some(&current_map[k]),
            None => None,
        };
        let ep_entry: Option<&StrictEntry> = match ei {
            Some(k) => Some(&epoch_map[k]),
            None => None,
        };
        proof {
            match ci {
                Some(k) => { assert(Some(current_map@[k as int]@) == lookup(cur, current_map@[k as int].path@)); }
                None => { if lookup(cur, tp.path@) is Some { assert(has_key(current_map@, byte_key(tp.path@))); } }
            }
            match ei {
                Some(k) => { assert(Some(epoch_map@[k as int]@) == lookup(ep, epoch_map@[k as int].path@)); }
                None => { if lookup(ep, tp.path@) is Some { assert(has_key(epoch_map@, byte_key(tp.path@))); } }
            }
        }
        if same_entry(cur_entry, ep_entry) {
            proof {
                assert(!considered(*tp, cur, ep));
            }
            i = i + 1;
            continue;
        }
        let mut reasons: Vec<CommitBlockReason> = Vec::new();
        let ghost mut rs: Set<CommitBlockReason> = Set::empty();
        proof { assert(reason_set(reasons@) =~= rs); }
        match tp.state.claim_state {
            PathClaimState::Exclusive => {},
            PathClaimState::InheritedDirty => {
                add_reason(&mut reasons, CommitBlockReason::PathInheritedDirty);
                proof { rs = rs.insert(CommitBlockReason::PathInheritedDirty); }
            },
            PathClaimState::Contended => {
                add_reason(&mut reasons, CommitBlockReason::PathContended);
                proof { rs = rs.insert(CommitBlockReason::PathContended); }
            },
            PathClaimState::ExternalInterference => {
                add_reason(&mut reasons, CommitBlockReason::ExternalInterference);
                proof { rs = rs.insert(CommitBlockReason::ExternalInterference); }
            },
        }
        proof { assert(rs =~= claim_reasons(tp.state.claim_state)); }
        let touching = sessions_touching_path(input.active_trackers, &tp.path);
        let contended = touching.len() > tp.state.other_sessions.len();
        if contended {
            add_reason(&mut reasons, CommitBlockReason::PathContended);
        }
        let ghost rs2 = rs.union(if contended { set![CommitBlockReason::PathContended] } else { Set::empty() });
        proof { assert(reason_set(reasons@) =~= rs2); }
        let oid = crate::domain::session_tracker::entry_oid(cur_entry);
        let interfered = !opt_str_eq(&oid, &tp.state.current_oid);
        if interfered {
            add_reason(&mut reasons, CommitBlockReason::ExternalInterference);
        }
        let ghost rs3 = rs2.union(if interfered { set![CommitBlockReason::ExternalInterference] } else { Set::empty() });
        proof {
            assert(reason_set(reasons@) =~= rs3);
            assert(rs3 =~= path_reason_set(*tp, cur, act));
        }
        if reasons.len() == 0 {
            proof {
                assert(reason_set(reasons@) =~= Set::<CommitBlockReason>::empty());
            }
            eligible.push(tp.path.duplicate());
            proof {
                assert(path_views(eligible@) =~= eligible_spec(post, cur, ep, act));
                assert(blocked_view(blocked@) =~= blocked_spec(post, cur, ep, act));
                assert(reason_set(blocking@) =~= base.union(blocked_union(post, cur, ep, act)));
            }
        } else {
            let ghost before_blocking = blocking@;
            let mut k: usize = 0;
            while k < reasons.len()
                invariant
                    k <= reasons.len(),
                    strictly_sorted(keys(blocking@)),
                    reason_set(blocking@) == reason_set(before_blocking).union(reason_set(reasons@.take(k as int))),
                decreases reasons.len() - k,
            {
                add_reason(&mut blocking, reasons[k]);
                proof {
                    assert(reasons@.take(k + 1) =~= reasons@.take(k as int).push(reasons@[k as int]));
                    reasons@.take(k as int).lemma_push_to_set_commute(reasons@[k as int]);
                    assert(reason_set(reasons@.take(k + 1)) =~= reason_set(reasons@.take(k as int)).insert(reasons@[k as int]));
                    assert(reason_set(blocking@) =~= reason_set(before_blocking).union(reason_set(reasons@.take(k + 1))));
                }
                k = k + 1;
            }
            proof {
                assert(reasons@.take(reasons@.len() as int) =~= reasons@);
                assert(reason_set(reasons@) != Set::<CommitBlockReason>::empty()) by {
                    assert(reason_set(reasons@).contains(reasons@[0]));
                }
            }
            let ghost bv = blocked@;
            blocked.push(BlockedPath { path: tp.path.duplicate(), reasons });
            proof {
                assert(blocked_view(blocked@) =~= blocked_view(bv).push((tp.path@, rs3)));
                assert(blocked_view(blocked@) =~= blocked_spec(post, cur, ep, act));
                assert(path_views(eligible@) =~= eligible_spec(post, cur, ep, act));
                assert(reason_set(blocking@) =~= base.union(blocked_union(post, cur, ep, act)));
            }
        }
        i = i + 1;
    }
    proof {
        assert(touched.take(touched.len() as int) =~= touched);
    }
    let safe = met && blocking.len() == 0 && eligible.len() > 0;
    proof {
        let es = eligible_spec(touched, cur, ep, act);
        let bs = blocked_spec(touched, cur, ep, act);
        assert(touched.take(touched.len() as int) =~= touched);
        lemma_plan_lists_ordered(touched, cur, ep, act);
        assert(keys(eligible@) =~= path_keys(path_views(eligible@)));
        assert forall|a: int, k: int|
            0 <= a < eligible@.len() && 0 <= k < blocked@.len() implies (#[trigger] eligible@[a])@ != (
            #[trigger] blocked@[k]).path@ by {
            assert(path_views(eligible@)[a] == es[a]);
            assert(blocked_view(blocked@)[k].0 == bs[k].0);
        }
    }
    CommitPlan {
        version: 1,
        session_id: tracker.session_id.clone(),
        stream_id: tracker.stream_id.clone(),
        epoch: tracker.epoch,
        thresholds_met: met,
        safe_to_commit: safe,
        eligible_paths: eligible,
        blocked_paths: blocked,
        blocking_reasons: blocking,
    }
}

/// The recorded state of a touched path (the last record for it).
pub open spec fn tracked_lookup(t: Seq<TrackedPath>, p: Seq<u8>) -> Option<TrackedPathState>
    decreases t.len(),
{
    if t.len() == 0 {
        None
    } else if t.last().path@ == p {
        Some(t.last().state)
    } else {
        tracked_lookup(t.drop_last(), p)
    }
}

/// In a sorted record list, the record for a path is the one at its position.
pub proof fn lemma_tracked_lookup(t: Seq<TrackedPath>, p: Seq<u8>)
    requires
        strictly_sorted(keys(t)),
    ensures
        forall|i: int| 0 <= i < t.len() && #[trigger] t[i].path@ == p ==> tracked_lookup(t, p) == Some(t[i].state),
        !has_key(t, byte_key(p)) ==> tracked_lookup(t, p) is None,
    decreases t.len(),
{
    if t.len() > 0 {
        let d = t.drop_last();
        assert(strictly_sorted(keys(d))) by {
            assert forall|a: int, b: int| 0 <= a < b < d.len() implies #[trigger] lex_lt(keys(d)[a], keys(d)[b]) by {
                assert(lex_lt(keys(t)[a], keys(t)[b]));
            }
        }
        lemma_tracked_lookup(d, p);
        assert forall|i: int| 0 <= i < t.len() && #[trigger] t[i].path@ == p implies tracked_lookup(t, p) == Some(t[i].state) by {
            if i < t.len() - 1 {
                assert(d[i] == t[i]);
                if t.last().path@ == p {
                    assert(t[i].key() == t[t.len() - 1].key());
                    crate::order::lemma_strictly_sorted_keys_unique(t, i, t.len() - 1);
                }
            }
        }
        if !has_key(t, byte_key(p)) {
            if has_key(d, byte_key(p)) {
                let m = choose|m: int| 0 <= m < d.len() && #[trigger] d[m].key() == byte_key(p);
                assert(t[m] == d[m]);
            }
            if t.last().path@ == p {
                assert(t[t.len() - 1].key() == byte_key(p));
            }
        }
    }
}

/// Removes the record for a path, if any.
pub fn remove_tracked(v: &mut Vec<TrackedPath>, path: &RepoPath) -> (removed: Option<TrackedPathState>)
    requires
        strictly_sorted(keys(old(v)@)),
    ensures
        strictly_sorted(keys(final(v)@)),
        removed == tracked_lookup(old(v)@, path@),
        tracked_lookup(final(v)@, path@) is None,
        forall|q: Seq<u8>| q != path@ ==> #[trigger] tracked_lookup(final(v)@, q) == tracked_lookup(old(v)@, q),
{
    proof { lemma_tracked_lookup(v@, path@); }
    match find_tracked(v, path) {
        None => {
            proof { lemma_tracked_lookup(v@, path@); }
            None
        },
        Some(i) => {
            let ghost before = v@;
            let r = v.remove(i);
            proof {
                let after = v@;
                assert(after == before.remove(i as int));
                assert(strictly_sorted(keys(after))) by {
                    assert forall|a: int, b: int| 0 <= a < b < after.len() implies #[trigger] lex_lt(keys(after)[a], keys(after)[b]) by {
                        if b < i {
                            assert(lex_lt(keys(before)[a], keys(before)[b]));
                        } else if a < i {
                            assert(lex_lt(keys(before)[a], keys(before)[b + 1]));
                        } else {
                            assert(lex_lt(keys(before)[a + 1], keys(before)[b + 1]));
                        }
                    }
                }
                lemma_tracked_lookup(after, path@);
                assert(!has_key(after, byte_key(path@))) by {
                    if has_key(after, byte_key(path@)) {
                        let m = choose|m: int| 0 <= m < after.len() && #[trigger] after[m].key() == byte_key(path@);
                        let mm = if m < i { m } else { m + 1 };
                        assert(after[m] == before[mm]);
                        assert(before[i as int].key() == byte_key(path@));
                        crate::order::lemma_strictly_sorted_keys_unique(before, mm, i as int);
                    }
                }
                assert forall|q: Seq<u8>| q != path@ implies #[trigger] tracked_lookup(after, q) == tracked_lookup(before, q) by {
                    lemma_tracked_lookup(after, q);
                    lemma_tracked_lookup(before, q);
                    if has_key(before, byte_key(q)) {
                        let m = choose|m: int| 0 <= m < before.len() && #[trigger] before[m].key() == byte_key(q);
                        lemma_byte_key_injective(before[m].path@, q);
                        if m == i {
                            lemma_byte_key_injective(before[m].path@, path@);
                        }
                        let am = if m < i { m } else { m - 1 };
                        assert(after[am] == before[m]);
                    } else {
                        if has_key(after, byte_key(q)) {
                            let m = choose|m: int| 0 <= m < after.len() && #[trigger] after[m].key() == byte_key(q);
                            let mm = if m < i { m } else { m + 1 };
                            assert(after[m] == before[mm]);
                        }
                    }
                }
            }
            Some(r.state)
        },
    }
}

/// Inserts (or replaces) the record for a path.
pub fn put_tracked(v: &mut Vec<TrackedPath>, x: TrackedPath)
    requires
        strictly_sorted(keys(old(v)@)),
    ensures
        strictly_sorted(keys(final(v)@)),
        tracked_lookup(final(v)@, x.path@) == Some(x.state),
        forall|q: Seq<u8>| q != x.path@ ==> #[trigger] tracked_lookup(final(v)@, q) == tracked_lookup(old(v)@, q),
{
    let ghost before = v@;
    let ghost xp = x.path@;
    let ghost xs = x.state;
    let ghost xk = x.key();
    upsert_sorted(v, x);
    proof {
        let after = v@;
        lemma_tracked_lookup(after, xp);
        if has_key(before, xk) {
            let pos = choose|pos: int| 0 <= pos < before.len() && #[trigger] before[pos].key() == xk && after == before.update(pos, x);
            assert(after[pos].path@ == xp);
            assert forall|q: Seq<u8>| q != xp implies #[trigger] tracked_lookup(after, q) == tracked_lookup(before, q) by {
                lemma_tracked_lookup(after, q);
                lemma_tracked_lookup(before, q);
                if has_key(before, byte_key(q)) {
                    let m = choose|m: int| 0 <= m < before.len() && #[trigger] before[m].key() == byte_key(q);
                    lemma_byte_key_injective(before[m].path@, q);
                    if m == pos {
                        lemma_byte_key_injective(before[m].path@, xp);
                    }
                    assert(after[m] == before[m]);
                } else if has_key(after, byte_key(q)) {
                    let m = choose|m: int| 0 <= m < after.len() && #[trigger] after[m].key() == byte_key(q);
                    if m == pos {
                        lemma_byte_key_injective(q, xp);
                    }
                    assert(after[m] == before[m]);
                }
            }
        } else {
            let pos = choose|pos: int| 0 <= pos <= before.len() && after == before.insert(pos, x);
            assert(after[pos].path@ == xp);
            assert forall|q: Seq<u8>| q != xp implies #[trigger] tracked_lookup(after, q) == tracked_lookup(before, q) by {
                lemma_tracked_lookup(after, q);
                lemma_tracked_lookup(before, q);
                if has_key(before, byte_key(q)) {
                    let m = choose|m: int| 0 <= m < before.len() && #[trigger] before[m].key() == byte_key(q);
                    lemma_byte_key_injective(before[m].path@, q);
                    let am = if m < pos { m } else { m + 1 };
                    assert(after[am] == before[m]);
                } else if has_key(after, byte_key(q)) {
                    let m = choose|m: int| 0 <= m < after.len() && #[trigger] after[m].key() == byte_key(q);
                    if m == pos {
                        lemma_byte_key_injective(q, xp);
                    } else {
                        let bm = if m < pos { m } else { m - 1 };
                        assert(after[m] == before[bm]);
                    }
                }
            }
        }
    }
}

/// How a session may claim a path it changed in a turn: inherited when the path was already
/// dirty at the start of the epoch, contended when other active sessions touched it, external
/// interference when its blob moved since this session last recorded it, exclusive otherwise.
pub open spec fn new_claim(
    old: Option<TrackedPathState>,
    p: Seq<u8>,
    baseline: Seq<StrictEntry>,
    start_head: Seq<StrictEntry>,
    epoch_start: Seq<StrictEntry>,
    others: Seq<SessionTracker>,
) -> PathClaimState {
    if !same_entry_view(lookup(epoch_start, p), lookup(start_head, p)) {
        PathClaimState::InheritedDirty
    } else if touching_ids(others, p).len() > 0 {
        PathClaimState::Contended
    } else if old is Some && opt_text(old->0.current_oid) != spec_entry_oid(lookup(baseline, p)) {
        PathClaimState::ExternalInterference
    } else {
        PathClaimState::Exclusive
    }
}

/// The record of a path after a turn that changed it.
pub open spec fn state_after_turn(
    old: Option<TrackedPathState>,
    st: TrackedPathState,
    p: Seq<u8>,
    turn_id: Seq<char>,
    session_id: Seq<char>,
    now: i64,
    baseline: Seq<StrictEntry>,
    current: Seq<StrictEntry>,
    start_head: Seq<StrictEntry>,
    epoch_start: Seq<StrictEntry>,
    others: Seq<SessionTracker>,
) -> bool {
    &&& st.first_touched_at == (match old {
        Some(o) => o.first_touched_at,
        None => now,
    })
    &&& st.last_touched_at == now
    &&& st.first_turn_id@ == (match old {
        Some(o) => o.first_turn_id@,
        None => turn_id,
    })
    &&& st.last_turn_id@ == turn_id
    &&& st.claim_state == new_claim(old, p, baseline, start_head, epoch_start, others)
    &&& opt_text(st.start_head_oid) == spec_entry_oid(lookup(start_head, p))
    &&& opt_text(st.start_worktree_oid) == spec_entry_oid(lookup(epoch_start, p))
    &&& opt_text(st.current_oid) == spec_entry_oid(lookup(current, p))
    &&& st.claimed_by_session@ == session_id
    &&& is_sorted_names(st.other_sessions@, touching_ids(others, p))
}

/// The touched-path record of `p` after the turn.
pub open spec fn path_updated(
    old_t: Seq<TrackedPath>,
    new_t: Seq<TrackedPath>,
    p: Seq<u8>,
    turn_id: Seq<char>,
    session_id: Seq<char>,
    now: i64,
    baseline: Seq<StrictEntry>,
    current: Seq<StrictEntry>,
    start_head: Seq<StrictEntry>,
    epoch_start: Seq<StrictEntry>,
    others: Seq<SessionTracker>,
) -> bool {
    if crate::domain::delta::path_changed(baseline, current, p) {
        if same_entry_view(lookup(current, p), lookup(epoch_start, p)) {
            tracked_lookup(new_t, p) is None
        } else {
            tracked_lookup(new_t, p) is Some && state_after_turn(
                tracked_lookup(old_t, p),
                tracked_lookup(new_t, p)->0,
                p,
                turn_id,
                session_id,
                now,
                baseline,
                current,
                start_head,
                epoch_start,
                others,
            )
        }
    } else {
        tracked_lookup(new_t, p) == tracked_lookup(old_t, p)
    }
}

/// Every touched path is held exclusively.
pub open spec fn all_exclusive(t: Seq<TrackedPath>) -> bool {
    forall|i: int| 0 <= i < t.len() ==> #[trigger] t[i].state.claim_state == PathClaimState::Exclusive
}

/// What a turn read from the stores: the snapshots a tracker update compares.
pub struct TurnSnapshots<'a> {
    pub turn_id: &'a str,
    pub baseline: &'a [StrictEntry],
    pub current: &'a crate::domain::manifest::StrictSnapshot,
    pub start_head: &'a [StrictEntry],
    pub epoch_start: &'a [StrictEntry],
    pub other_trackers: &'a [SessionTracker],
    pub now: i64,
}

/// Records a turn in a session's tracker: counts the turn when it changed something, and
/// reclaims, releases or blocks each path the turn changed.
pub fn update_tracker_from_turn(tracker: &mut SessionTracker, turn: &TurnSnapshots<'_>)
    requires
        strictly_sorted(keys(old(tracker).touched_paths@)),
    ensures
        strictly_sorted(keys(final(tracker).touched_paths@)),
        forall|p: Seq<u8>| #[trigger] path_updated(
            old(tracker).touched_paths@,
            final(tracker).touched_paths@,
            p,
            turn.turn_id@,
            old(tracker).session_id@,
            turn.now,
            turn.baseline@,
            turn.current.entries@,
            turn.start_head@,
            turn.epoch_start@,
            turn.other_trackers@,
        ),
        crate::domain::delta::changed_path_set(turn.baseline@, turn.current.entries@).len() > 0 ==> {
            &&& final(tracker).turn_count_since_reset == crate::domain::manager::sat_inc(old(tracker).turn_count_since_reset)
            &&& final(tracker).first_dirty_at == (match old(tracker).first_dirty_at {
                Some(t) => Some(t),
                None => Some(turn.now),
            })
            &&& final(tracker).last_dirty_at == Some(turn.now)
        },
        crate::domain::delta::changed_path_set(turn.baseline@, turn.current.entries@).len() == 0 ==> {
            &&& final(tracker).turn_count_since_reset == old(tracker).turn_count_since_reset
            &&& final(tracker).first_dirty_at == old(tracker).first_dirty_at
            &&& final(tracker).last_dirty_at == old(tracker).last_dirty_at
        },
        final(tracker).last_seen_manifest_id@ == turn.current.manifest_id@,
        final(tracker).status == (if all_exclusive(final(tracker).touched_paths@) {
            crate::domain::session_tracker::SessionTrackerStatus::Active
        } else {
            crate::domain::session_tracker::SessionTrackerStatus::Blocked
        }),
        final(tracker).session_id == old(tracker).session_id,
        final(tracker).stream_id == old(tracker).stream_id,
        final(tracker).epoch == old(tracker).epoch,
        final(tracker).start_head_oid == old(tracker).start_head_oid,
        final(tracker).start_head_manifest_id == old(tracker).start_head_manifest_id,
        final(tracker).epoch_start_worktree_manifest_id == old(tracker).epoch_start_worktree_manifest_id,
        final(tracker).version == old(tracker).version,
{
    let ghost baseline = turn.baseline@;
    let ghost current = turn.current.entries@;
    let ghost sh = turn.start_head@;
    let ghost es = turn.epoch_start@;
    let ghost others = turn.other_trackers@;
    let ghost sid = tracker.session_id@;
    let ghost old_t = tracker.touched_paths@;
    let baseline_map = entries_by_path(turn.baseline);
    let current_map = entries_by_path(turn.current.entries.as_slice());
    let start_head_map = entries_by_path(turn.start_head);
    let epoch_map = entries_by_path(turn.epoch_start);
    let changed = crate::domain::delta::changed_paths(turn.baseline, turn.current.entries.as_slice());
    let n_changed = crate::domain::delta::changed_path_count(turn.baseline, turn.current.entries.as_slice());
    if n_changed > 0 {
        tracker.turn_count_since_reset = tracker.turn_count_since_reset.saturating_add(1);
        if tracker.first_dirty_at.is_none() {
            tracker.first_dirty_at = Some(turn.now);
        }
        tracker.last_dirty_at = Some(turn.now);
    }
    tracker.last_seen_manifest_id = turn.current.manifest_id.clone();
    let ghost mid = *tracker;
    let mut i: usize = 0;
    while i < changed.len()
        invariant
            i <= changed.len(),
            tracker.turn_count_since_reset == mid.turn_count_since_reset,
            tracker.first_dirty_at == mid.first_dirty_at,
            tracker.last_dirty_at == mid.last_dirty_at,
            tracker.last_seen_manifest_id == mid.last_seen_manifest_id,
            tracker.session_id == mid.session_id,
            tracker.stream_id == mid.stream_id,
            tracker.epoch == mid.epoch,
            tracker.start_head_oid == mid.start_head_oid,
            tracker.start_head_manifest_id == mid.start_head_manifest_id,
            tracker.epoch_start_worktree_manifest_id == mid.epoch_start_worktree_manifest_id,
            tracker.version == mid.version,
            baseline == turn.baseline@,
            current == turn.current.entries@,
            sh == turn.start_head@,
            es == turn.epoch_start@,
            others == turn.other_trackers@,
            sid == tracker.session_id@,
            is_path_index(baseline_map@, baseline),
            is_path_index(current_map@, current),
            is_path_index(start_head_map@, sh),
            is_path_index(epoch_map@, es),
            strictly_sorted(keys(changed@)),
            forall|p: Seq<u8>| has_key(changed@, byte_key(p)) <==> #[trigger] crate::domain::delta::path_changed(baseline, current, p),
            strictly_sorted(keys(tracker.touched_paths@)),
            forall|p: Seq<u8>| #[trigger] has_key(changed@.take(i as int), byte_key(p)) ==> path_updated(
                old_t, tracker.touched_paths@, p, turn.turn_id@, sid, turn.now, baseline, current, sh, es, others),
            forall|p: Seq<u8>| !#[trigger] has_key(changed@.take(i as int), byte_key(p)) ==> tracked_lookup(tracker.touched_paths@, p) == tracked_lookup(old_t, p),
        decreases changed.len() - i,
    {
        let path = &changed[i];
        let ghost p = path@;
        let ghost before = tracker.touched_paths@;
        proof {
            assert(changed@[i as int].key() == byte_key(p));
            assert(has_key(changed@, byte_key(p)));
            // p has not been processed yet
            assert(!has_key(changed@.take(i as int), byte_key(p))) by {
                if has_key(changed@.take(i as int), byte_key(p)) {
                    let m = choose|m: int| 0 <= m < changed@.take(i as int).len() && #[trigger] changed@.take(i as int)[m].key() == byte_key(p);
                    assert(changed@[m] == changed@.take(i as int)[m]);
                    crate::order::lemma_strictly_sorted_keys_unique(changed@, m, i as int);
                }
            }
        }
        let ci = find_in_index(&current_map, path);
        let bi = find_in_index(&baseline_map, path);
        let si = find_in_index(&start_head_map, path);
        let ei = find_in_index(&epoch_map, path);
        let cur_entry: Option<&StrictEntry> = match ci { Some(k) => Some(&current_map[k]), None => None };
        let base_entry: Option<&StrictEntry> = match bi { Some(k) => Some(&baseline_map[k]), None => None };
        let sh_entry: Option<&StrictEntry> = match si { Some(k) => Some(&start_head_map[k]), None => None };
        let ep_entry: Option<&StrictEntry> = match ei { Some(k) => Some(&epoch_map[k]), None => None };
        proof {
            match ci { Some(k) => { assert(Some(current_map@[k as int]@) == lookup(current, current_map@[k as int].path@)); } None => { if lookup(current, p) is Some { assert(has_key(current_map@, byte_key(p))); } } }
            match bi { Some(k) => { assert(Some(baseline_map@[k as int]@) == lookup(baseline, baseline_map@[k as int].path@)); } None => { if lookup(baseline, p) is Some { assert(has_key(baseline_map@, byte_key(p))); } } }
            match si { Some(k) => { assert(Some(start_head_map@[k as int]@) == lookup(sh, start_head_map@[k as int].path@)); } None => { if lookup(sh, p) is Some { assert(has_key(start_head_map@, byte_key(p))); } } }
            match ei { Some(k) => { assert(Some(epoch_map@[k as int]@) == lookup(es, epoch_map@[k as int].path@)); } None => { if lookup(es, p) is Some { assert(has_key(epoch_map@, byte_key(p))); } } }
        }
        if same_entry(cur_entry, ep_entry) {
            remove_tracked(&mut tracker.touched_paths, path);
        } else {
            let other_sessions = sessions_touching_path(turn.other_trackers, path);
            let inherited = !same_entry(ep_entry, sh_entry);
            let existing_index = find_tracked(&tracker.touched_paths, path);
            proof { lemma_tracked_lookup(tracker.touched_paths@, p); }
            let interfered = match existing_index {
                Some(k) => {
                    let base_oid = crate::domain::session_tracker::entry_oid(base_entry);
                    !opt_str_eq(&tracker.touched_paths[k].state.current_oid, &base_oid)
                },
                None => false,
            };
            let claim_state = if inherited {
                PathClaimState::InheritedDirty
            } else if other_sessions.len() > 0 {
                PathClaimState::Contended
            } else if interfered {
                PathClaimState::ExternalInterference
            } else {
                PathClaimState::Exclusive
            };
            let previous = remove_tracked(&mut tracker.touched_paths, path);
            let (first_touched_at, first_turn_id) = match &previous {
                Some(current) => (current.first_touched_at, current.first_turn_id.clone()),
                None => (turn.now, turn.turn_id.to_string()),
            };
            let state = TrackedPathState {
                first_touched_at,
                last_touched_at: turn.now,
                first_turn_id,
                last_turn_id: turn.turn_id.to_string(),
                claim_state,
                start_head_oid: crate::domain::session_tracker::entry_oid(sh_entry),
                start_worktree_oid: crate::domain::session_tracker::entry_oid(ep_entry),
                current_oid: crate::domain::session_tracker::entry_oid(cur_entry),
                claimed_by_session: tracker.session_id.clone(),
                other_sessions,
            };
            proof {
                assert(previous == tracked_lookup(old_t, p));
                assert(state_after_turn(tracked_lookup(old_t, p), state, p, turn.turn_id@, sid, turn.now, baseline, current, sh, es, others));
            }
            put_tracked(&mut tracker.touched_paths, TrackedPath { path: path.duplicate(), state });
        }
        proof {
            let t2 = changed@.take(i + 1);
            assert(t2 =~= changed@.take(i as int).push(changed@[i as int]));
            assert forall|q: Seq<u8>| #[trigger] has_key(t2, byte_key(q)) implies path_updated(
                old_t, tracker.touched_paths@, q, turn.turn_id@, sid, turn.now, baseline, current, sh, es, others) by {
                if has_key(t2, byte_key(q)) {
                    let m = choose|m: int| 0 <= m < t2.len() && #[trigger] t2[m].key() == byte_key(q);
                    if m < i {
                        assert(changed@.take(i as int)[m] == t2[m]);
                        assert(has_key(changed@.take(i as int), byte_key(q)));
                        lemma_byte_key_injective(q, p);
                    } else {
                        lemma_byte_key_injective(t2[m]@, q);
                        assert(has_key(changed@, byte_key(q)));
                    }
                }
            }
            assert forall|q: Seq<u8>| !#[trigger] has_key(t2, byte_key(q)) implies tracked_lookup(tracker.touched_paths@, q) == tracked_lookup(old_t, q) by {
                assert(t2[i as int].key() == byte_key(p));
                if q == p {
                    assert(has_key(t2, byte_key(q)));
                }
                if has_key(changed@.take(i as int), byte_key(q)) {
                    let m = choose|m: int| 0 <= m < changed@.take(i as int).len() && #[trigger] changed@.take(i as int)[m].key() == byte_key(q);
                    assert(t2[m] == changed@.take(i as int)[m]);
                }
            }
        }
        i = i + 1;
    }
    proof {
        assert(changed@.take(changed@.len() as int) =~= changed@);
        assert forall|p: Seq<u8>| #[trigger] path_updated(old_t, tracker.touched_paths@, p, turn.turn_id@, sid, turn.now, baseline, current, sh, es, others) by {
            if !has_key(changed@, byte_key(p)) {
                assert(!crate::domain::delta::path_changed(baseline, current, p));
            }
        }
    }
    let mut all_excl = true;
    let mut k: usize = 0;
    while k < tracker.touched_paths.len()
        invariant
            k <= tracker.touched_paths@.len(),
            tracker.turn_count_since_reset == mid.turn_count_since_reset,
            tracker.first_dirty_at == mid.first_dirty_at,
            tracker.last_dirty_at == mid.last_dirty_at,
            tracker.last_seen_manifest_id == mid.last_seen_manifest_id,
            all_excl == (forall|j: int| 0 <= j < k ==> #[trigger] tracker.touched_paths@[j].state.claim_state == PathClaimState::Exclusive),
        decreases tracker.touched_paths@.len() - k,
    {
        if tracker.touched_paths[k].state.claim_state != PathClaimState::Exclusive {
            all_excl = false;
        }
        k = k + 1;
    }
    tracker.status = if all_excl {
        crate::domain::session_tracker::SessionTrackerStatus::Active
    } else {
        crate::domain::session_tracker::SessionTrackerStatus::Blocked
    };
}

/// Sessions not seen for this long no longer count as active.
pub const ACTIVE_SESSION_TTL_SECONDS: i64 = 7200;

/// A session seen within the activity window before `now`.
pub open spec fn spec_is_active(last_seen_at: Option<i64>, now: i64) -> bool {
    match last_seen_at {
        Some(t) => t >= crate::domain::decision::sat_sub_i64(now, ACTIVE_SESSION_TTL_SECONDS),
        None => false,
    }
}

/// Whether a session (by the time it was last seen, if it is known) is active at `now`.
pub fn is_active(last_seen_at: Option<i64>, now: i64) -> (r: bool)
    ensures
        r == spec_is_active(last_seen_at, now),
{
    match last_seen_at {
        Some(t) => t >= crate::domain::decision::saturating_sub_i64(now, ACTIVE_SESSION_TTL_SECONDS),
        None => false,
    }
}

/// A tracker's session id with the time that session was last seen, if its session is known.
pub struct SessionActivity {
    pub session_id: String,
    pub last_seen_at: Option<i64>,
}

/// The ids of the active sessions among the candidates.
pub open spec fn active_id_set(candidates: Seq<SessionActivity>, now: i64) -> Set<Seq<char>> {
    Set::new(|s: Seq<char>| exists|i: int| 0 <= i < candidates.len() && #[trigger] candidates[i].session_id@ == s && spec_is_active(candidates[i].last_seen_at, now))
}

/// Whether a candidate is another session than the excluded one, and active at `now`.
pub open spec fn other_active(c: SessionActivity, now: i64, exclude: Option<Seq<char>>) -> bool {
    &&& exclude != Some(c.session_id@)
    &&& spec_is_active(c.last_seen_at, now)
}

/// The positions, in order, of the first `n` candidates that are other active sessions.
pub open spec fn other_active_positions(
    candidates: Seq<SessionActivity>,
    now: i64,
    exclude: Option<Seq<char>>,
    n: int,
) -> Seq<usize>
    decreases n,
{
    if n <= 0 {
        Seq::empty()
    } else {
        let prev = other_active_positions(candidates, now, exclude, n - 1);
        if other_active(candidates[n - 1], now, exclude) {
            prev.push((n - 1) as usize)
        } else {
            prev
        }
    }
}

/// The positions, in order, of the trackers of other sessions that are active at `now`:
/// the excluded session (the one asking) is left out, as is every session not seen within
/// the activity window.
pub fn other_active_trackers(candidates: &[SessionActivity], now: i64, exclude_session_id: Option<&str>) -> (r:
    Vec<usize>)
    ensures
        r@ == other_active_positions(
            candidates@,
            now,
            match exclude_session_id {
                Some(s) => Some(s@),
                None => None,
            },
            candidates@.len() as int,
        ),
{
    let ghost ex = match exclude_session_id {
        Some(s) => Some(s@),
        None => None,
    };
    let mut r: Vec<usize> = Vec::new();
    let mut i: usize = 0;
    while i < candidates.len()
        invariant
            i <= candidates@.len(),
            ex == (match exclude_session_id {
                Some(s) => Some(s@),
                None => None,
            }),
            r@ == other_active_positions(candidates@, now, ex, i as int),
        decreases candidates.len() - i,
    {
        let c = &candidates[i];
        let excluded = match exclude_session_id {
            Some(s) => str_eq(s, c.session_id.as_str()),
            None => false,
        };
        if !excluded && is_active(c.last_seen_at, now) {
            r.push(i);
        }
        i = i + 1;
    }
    r
}

/// The active sessions among the trackers of a stream, sorted and without duplicates.
pub fn active_session_ids(candidates: &[SessionActivity], now: i64) -> (res: Vec<String>)
    ensures
        is_sorted_names(res@, active_id_set(candidates@, now)),
{
    let mut ids: Vec<String> = Vec::new();
    let mut i: usize = 0;
    while i < candidates.len()
        invariant
            i <= candidates.len(),
            forall|s: Seq<char>| has_key(ids@, char_key(s)) <==> exists|j: int| 0 <= j < i && #[trigger] candidates@[j].session_id@ == s && spec_is_active(candidates@[j].last_seen_at, now),
        decreases candidates.len() - i,
    {
        let ghost before = ids@;
        let active = is_active(candidates[i].last_seen_at, now);
        if active {
            ids.push(candidates[i].session_id.clone());
        }
        proof {
            let n = i + 1;
            assert forall|s: Seq<char>| has_key(ids@, char_key(s)) implies exists|j: int| 0 <= j < n && #[trigger] candidates@[j].session_id@ == s && spec_is_active(candidates@[j].last_seen_at, now) by {
                let m = choose|m: int| 0 <= m < ids@.len() && #[trigger] ids@[m].key() == char_key(s);
                if m < before.len() {
                    assert(ids@[m] == before[m]);
                    assert(has_key(before, char_key(s)));
                } else {
                    lemma_char_key_injective(ids@[m]@, s);
                    assert(candidates@[i as int].session_id@ == s);
                }
            }
            assert forall|s: Seq<char>| (exists|j: int| 0 <= j < n && #[trigger] candidates@[j].session_id@ == s && spec_is_active(candidates@[j].last_seen_at, now)) implies has_key(ids@, char_key(s)) by {
                let j = choose|j: int| 0 <= j < n && #[trigger] candidates@[j].session_id@ == s && spec_is_active(candidates@[j].last_seen_at, now);
                if j < i {
                    assert(has_key(before, char_key(s)));
                    let m = choose|m: int| 0 <= m < before.len() && #[trigger] before[m].key() == char_key(s);
                    assert(ids@[m] == before[m]);
                } else {
                    assert(ids@[before.len() as int].key() == char_key(s));
                }
            }
        }
        i = i + 1;
    }
    sort_unique(ids)
}

/// The active sessions after a session start: the active sessions plus the starting session
/// when its id is stable.
pub open spec fn refreshed_active_set(candidates: Seq<SessionActivity>, now: i64, current: Option<Seq<char>>) -> Set<Seq<char>> {
    match current {
        Some(id) => if spec_stable_session_id(id) {
            active_id_set(candidates, now).insert(id)
        } else {
            active_id_set(candidates, now)
        },
        None => active_id_set(candidates, now),
    }
}

/// Recomputes a manager's active sessions, keeping the session that is starting.
pub fn refresh_active_sessions(
    manager: &mut crate::domain::manager::ManagerState,
    candidates: &[SessionActivity],
    current_session_id: Option<&str>,
    now: i64,
)
    ensures
        is_sorted_names(final(manager).active_sessions@, refreshed_active_set(candidates@, now, match current_session_id {
            Some(s) => Some(s@),
            None => None,
        })),
        final(manager).anchor == old(manager).anchor,
        final(manager).pending == old(manager).pending,
        final(manager).generation == old(manager).generation,
        final(manager).last_seen == old(manager).last_seen,
        final(manager).version == old(manager).version,
        final(manager).stream == old(manager).stream,
{
    let mut active = active_session_ids(candidates, now);
    if let Some(session_id) = current_session_id {
        if stable_session_id(session_id) {
            let ghost before = active@;
            let item = session_id.to_string();
            let ghost item_g = item;
            let inserted = insert_sorted_unique(&mut active, item);
            proof {
                let id = session_id@;
                assert forall|s: Seq<char>| #[trigger] has_key(active@, char_key(s)) <==> active_id_set(candidates@, now).insert(id).contains(s) by {
                    if inserted {
                        let pos = choose|pos: int| 0 <= pos <= before.len() && active@ == before.insert(pos, item_g);
                        if has_key(active@, char_key(s)) {
                            let m = choose|m: int| 0 <= m < active@.len() && #[trigger] active@[m].key() == char_key(s);
                            if m < pos {
                                assert(active@[m] == before[m]);
                                assert(has_key(before, char_key(s)));
                            } else if m > pos {
                                assert(active@[m] == before[m - 1]);
                                assert(has_key(before, char_key(s)));
                            } else {
                                lemma_char_key_injective(active@[m]@, s);
                            }
                        }
                        if has_key(before, char_key(s)) {
                            let m = choose|m: int| 0 <= m < before.len() && #[trigger] before[m].key() == char_key(s);
                            if m < pos {
                                assert(active@[m] == before[m]);
                            } else {
                                assert(active@[m + 1] == before[m]);
                            }
                        }
                        if s == id {
                            assert(active@[pos].key() == char_key(s));
                        }
                    } else {
                        if s == id {
                            assert(has_key(before, char_key(id)));
                        }
                    }
                }
            }
        }
    }
    manager.active_sessions = active;
}

/// A tracker for a session starting (or resuming) on a stream: the stored tracker when there
/// is one, else a fresh one at epoch 1 anchored at the current HEAD and worktree; either way
/// moved to this stream and this worktree manifest, and active again when it holds no paths.
/// Sessions without a stable id get none.
pub fn create_or_refresh_tracker(
    existing: Option<SessionTracker>,
    session_id: Option<&str>,
    stream_id: &str,
    head_oid: &Option<String>,
    head_manifest_id: &str,
    current_manifest_id: &str,
) -> (res: Option<SessionTracker>)
    ensures
        match session_id {
            None => res is None,
            Some(id) => if !spec_stable_session_id(id@) {
                res is None
            } else {
                res is Some && {
                    let t = res->0;
                    &&& t.stream_id@ == stream_id@
                    &&& t.last_seen_manifest_id@ == current_manifest_id@
                    &&& (t.touched_paths@.len() == 0 ==> t.status == crate::domain::session_tracker::SessionTrackerStatus::Active)
                    &&& match existing {
                        Some(e) => {
                            &&& t.session_id == e.session_id
                            &&& t.epoch == e.epoch
                            &&& t.touched_paths == e.touched_paths
                            &&& t.turn_count_since_reset == e.turn_count_since_reset
                            &&& t.first_dirty_at == e.first_dirty_at
                            &&& t.start_head_oid == e.start_head_oid
                            &&& t.epoch_start_worktree_manifest_id == e.epoch_start_worktree_manifest_id
                            &&& (t.touched_paths@.len() > 0 ==> t.status == e.status)
                        },
                        None => {
                            &&& t.session_id@ == id@
                            &&& t.version == crate::domain::session_tracker::SESSION_TRACKER_VERSION
                            &&& t.epoch == 1
                            &&& opt_text(t.start_head_oid) == opt_text(*head_oid)
                            &&& t.start_head_manifest_id@ == head_manifest_id@
                            &&& t.epoch_start_worktree_manifest_id@ == current_manifest_id@
                            &&& t.first_dirty_at is None
                            &&& t.last_dirty_at is None
                            &&& t.turn_count_since_reset == 0
                            &&& t.touched_paths@.len() == 0
                        },
                    }
                }
            },
        },
{
    let id = match session_id {
        None => return None,
        Some(id) => id,
    };
    if !stable_session_id(id) {
        return None;
    }
    let mut tracker = match existing {
        Some(t) => t,
        None => SessionTracker {
            version: crate::domain::session_tracker::SESSION_TRACKER_VERSION,
            session_id: id.to_string(),
            stream_id: stream_id.to_string(),
            epoch: 1,
            status: crate::domain::session_tracker::SessionTrackerStatus::Active,
            start_head_oid: match head_oid {
                Some(o) => Some(o.clone()),
                None => None,
            },
            start_head_manifest_id: head_manifest_id.to_string(),
            epoch_start_worktree_manifest_id: current_manifest_id.to_string(),
            last_seen_manifest_id: current_manifest_id.to_string(),
            first_dirty_at: None,
            last_dirty_at: None,
            turn_count_since_reset: 0,
            touched_paths: Vec::new(),
        },
    };
    tracker.stream_id = stream_id.to_string();
    tracker.last_seen_manifest_id = current_manifest_id.to_string();
    if tracker.touched_paths.len() == 0 {
        tracker.status = crate::domain::session_tracker::SessionTrackerStatus::Active;
    }
    Some(tracker)
}

/// A plan is only safe when thresholds are met, nothing blocks it and some path is eligible;
/// a plan without a tracker is never safe.
pub proof fn law_safe_plan_has_no_blockers(plan: CommitPlan, input: BuildCommitPlanInput)
    requires
        is_commit_plan(plan, input),
        plan.safe_to_commit,
    ensures
        plan.thresholds_met,
        plan.blocking_reasons@.len() == 0,
        plan.eligible_paths@.len() > 0,
        input.tracker is Some,
{
}

/// Paths that went back to how they were when the session's epoch started are neither
/// eligible nor blocked.
pub proof fn law_restored_paths_drop_out(
    s: Seq<TrackedPath>,
    current: Seq<StrictEntry>,
    epoch_start: Seq<StrictEntry>,
    active: Seq<SessionTracker>,
    p: Seq<u8>,
)
    requires
        same_entry_view(lookup(current, p), lookup(epoch_start, p)),
    ensures
        !eligible_spec(s, current, epoch_start, active).contains(p),
        forall|i: int| 0 <= i < blocked_spec(s, current, epoch_start, active).len() ==> (#[trigger] blocked_spec(s, current, epoch_start, active)[i]).0 != p,
    decreases s.len(),
{
    if s.len() > 0 {
        law_restored_paths_drop_out(s.drop_last(), current, epoch_start, active, p);
        let prev_e = eligible_spec(s.drop_last(), current, epoch_start, active);
        let prev_b = blocked_spec(s.drop_last(), current, epoch_start, active);
        let b = blocked_spec(s, current, epoch_start, active);
        assert forall|i: int| 0 <= i < b.len() implies (#[trigger] b[i]).0 != p by {
            if i < prev_b.len() {
                assert(b[i] == prev_b[i]);
            }
        }
    }
}

/// A path that other active sessions touched since it was claimed is never eligible.
pub proof fn law_contended_paths_block(
    s: Seq<TrackedPath>,
    current: Seq<StrictEntry>,
    epoch_start: Seq<StrictEntry>,
    active: Seq<SessionTracker>,
    k: int,
)
    requires
        0 <= k < s.len(),
        strictly_sorted(keys(s)),
        touching_ids(active, s[k].path@).len() > s[k].state.other_sessions@.len(),
    ensures
        !eligible_spec(s, current, epoch_start, active).contains(s[k].path@),
    decreases s.len(),
{
    let p = s[k].path@;
    assert(path_reason_set(s[k], current, active).contains(CommitBlockReason::PathContended));
    if k < s.len() - 1 {
        let d = s.drop_last();
        assert(strictly_sorted(keys(d))) by {
            assert forall|a: int, b: int| 0 <= a < b < d.len() implies #[trigger] lex_lt(keys(d)[a], keys(d)[b]) by {
                assert(lex_lt(keys(s)[a], keys(s)[b]));
            }
        }
        assert(d[k] == s[k]);
        law_contended_paths_block(d, current, epoch_start, active, k);
        if s.last().path@ == p {
            assert(s.last().key() == s[k].key());
            crate::order::lemma_strictly_sorted_keys_unique(s, k, s.len() - 1);
        }
    } else {
        lemma_no_earlier_eligible(s.drop_last(), current, epoch_start, active, p, s);
    }
}

/// No path of a sorted prefix sorts after its successors, so a later path is not among the
/// prefix's eligible paths.
proof fn lemma_no_earlier_eligible(
    d: Seq<TrackedPath>,
    current: Seq<StrictEntry>,
    epoch_start: Seq<StrictEntry>,
    active: Seq<SessionTracker>,
    p: Seq<u8>,
    s: Seq<TrackedPath>,
)
    requires
        s.len() > 0,
        d == s.drop_last(),
        strictly_sorted(keys(s)),
        p == s.last().path@,
    ensures
        !eligible_spec(d, current, epoch_start, active).contains(p),
    decreases d.len(),
{
    lemma_eligible_from(d, current, epoch_start, active);
    if eligible_spec(d, current, epoch_start, active).contains(p) {
        let j = choose|j: int| 0 <= j < d.len() && #[trigger] d[j].path@ == p;
        assert(s[j] == d[j]);
        assert(s[j].key() == s[s.len() - 1].key());
        crate::order::lemma_strictly_sorted_keys_unique(s, j, s.len() - 1);
    }
}

/// Every eligible path is one of the touched paths.
proof fn lemma_eligible_from(
    s: Seq<TrackedPath>,
    current: Seq<StrictEntry>,
    epoch_start: Seq<StrictEntry>,
    active: Seq<SessionTracker>,
)
    ensures
        forall|q: Seq<u8>| #[trigger] eligible_spec(s, current, epoch_start, active).contains(q) ==> exists|j: int| 0 <= j < s.len() && #[trigger] s[j].path@ == q,
    decreases s.len(),
{
    if s.len() > 0 {
        let d = s.drop_last();
        lemma_eligible_from(d, current, epoch_start, active);
        let e = eligible_spec(s, current, epoch_start, active);
        let pe = eligible_spec(d, current, epoch_start, active);
        assert forall|q: Seq<u8>| #[trigger] e.contains(q) implies exists|j: int| 0 <= j < s.len() && #[trigger] s[j].path@ == q by {
            let i = choose|i: int| 0 <= i < e.len() && e[i] == q;
            if i < pe.len() {
                assert(e[i] == pe[i]);
                assert(pe.contains(q));
                let j = choose|j: int| 0 <= j < d.len() && #[trigger] d[j].path@ == q;
                assert(s[j] == d[j]);
            } else {
                assert(s[s.len() - 1].path@ == q);
            }
        }
    }
}

/// A plan in a repository that cannot be checkpointed: never safe, and blocked by the
/// repository state besides its other reasons (kept sorted, each once).
pub fn mark_unsupported(plan: &mut CommitPlan)
    ensures
        !final(plan).safe_to_commit,
        crate::order::strictly_sorted(crate::order::keys(final(plan).blocking_reasons@)),
        forall|k: Seq<int>|
            crate::order::has_key(final(plan).blocking_reasons@, k) <==> (crate::order::has_key(
                old(plan).blocking_reasons@,
                k,
            ) || k == CommitBlockReason::UnsupportedRepoState.key()),
        final(plan).session_id == old(plan).session_id,
        final(plan).stream_id == old(plan).stream_id,
        final(plan).epoch == old(plan).epoch,
        final(plan).thresholds_met == old(plan).thresholds_met,
        final(plan).eligible_paths == old(plan).eligible_paths,
        final(plan).blocked_paths == old(plan).blocked_paths,
{
    plan.safe_to_commit = false;
    let mut reasons: Vec<CommitBlockReason> = Vec::new();
    std::mem::swap(&mut reasons, &mut plan.blocking_reasons);
    let ghost before = reasons@;
    reasons.push(CommitBlockReason::UnsupportedRepoState);
    let ghost pushed = reasons@;
    let sorted_reasons = crate::order::sort_unique(reasons);
    assert forall|k: Seq<int>|
        crate::order::has_key(pushed, k) <==> (crate::order::has_key(before, k) || k
            == CommitBlockReason::UnsupportedRepoState.key()) by {
        if crate::order::has_key(pushed, k) {
            let i = choose|i: int| 0 <= i < pushed.len() && #[trigger] pushed[i].key() == k;
            if i < before.len() {
                assert(before[i] == pushed[i]);
            }
        }
        if crate::order::has_key(before, k) {
            let i = choose|i: int| 0 <= i < before.len() && #[trigger] before[i].key() == k;
            assert(pushed[i] == before[i]);
        }
        if k == CommitBlockReason::UnsupportedRepoState.key() {
            assert(pushed[before.len() as int].key() == k);
        }
    }
    plan.blocking_reasons = sorted_reasons;
}

} // verus!
