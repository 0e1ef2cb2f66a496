//! Visible checkpoint commits on the working branch: manifests of the owned paths, their
//! differences, and when a change calls for a commit.
use vstd::prelude::*;

use crate::domain::session_tracker::opt_text;
use crate::order::{
    char_key, has_key, keys, lemma_char_key_injective, lemma_lex_transitive, lex_lt, sort_unique,
    strictly_sorted, SortKey,
};
use crate::config::{CommitConfig, CommitKind, SprocketConfig};
use crate::pathspec::{glob_set_builds, glob_set_matches, glob_texts, glob_is_valid, glob_matches, glob_parses, path_starts_with, starts_with_path};
use crate::text::{starts_with, str_eq};

verus! {

/// One path of a manifest: present (with its SHA-256) or deleted.
#[derive(Debug, Clone)]
pub struct ManifestEntry {
    pub path: String,
    pub status: String,
    pub sha256: Option<String>,
}

/// The paths that changed between two manifests, each list sorted.
#[derive(Debug, Clone)]
pub struct Delta {
    pub added: Vec<String>,
    pub modified: Vec<String>,
    pub deleted: Vec<String>,
    pub changed_paths: Vec<String>,
}

/// The last entry of a manifest for a path (a later entry replaces an earlier one).
pub open spec fn entry_at(m: Seq<ManifestEntry>, p: Seq<char>) -> Option<ManifestEntry>
    decreases m.len(),
{
    if m.len() == 0 {
        None
    } else if m.last().path@ == p {
        Some(m.last())
    } else {
        entry_at(m.drop_last(), p)
    }
}

/// An entry recording a deletion.
pub open spec fn is_deleted(e: ManifestEntry) -> bool {
    e.status@ == "deleted"@
}

/// Two entries that record the same thing.
pub open spec fn same_manifest_entry(a: ManifestEntry, b: ManifestEntry) -> bool {
    a.path@ == b.path@ && a.status@ == b.status@ && opt_text(a.sha256) == opt_text(b.sha256)
}

/// How a path changed.
#[derive(Debug, Clone, Copy, PartialEq, Eq, Structural)]
pub enum PathChange {
    Added,
    Modified,
    Deleted,
}

/// How a path changed between two manifests: new paths are added (or deleted, when the new
/// entry records a deletion), vanished paths deleted (unless already recorded deleted),
/// and differing entries deleted, re-added or modified by their statuses.
pub open spec fn change_of(old: Seq<ManifestEntry>, new: Seq<ManifestEntry>, p: Seq<char>) -> Option<
    PathChange,
> {
    match (entry_at(old, p), entry_at(new, p)) {
        (None, Some(n)) => Some(
            if is_deleted(n) {
                PathChange::Deleted
            } else {
                PathChange::Added
            },
        ),
        (Some(o), None) => if !is_deleted(o) {
            Some(PathChange::Deleted)
        } else {
            None
        },
        (Some(o), Some(n)) => if same_manifest_entry(o, n) {
            None
        } else if !is_deleted(o) && is_deleted(n) {
            Some(PathChange::Deleted)
        } else if is_deleted(o) && !is_deleted(n) {
            Some(PathChange::Added)
        } else {
            Some(PathChange::Modified)
        },
        (None, None) => None,
    }
}

/// A list holds the path.
pub open spec fn lists(l: Seq<String>, p: Seq<char>) -> bool {
    exists|k: int| 0 <= k < l.len() && (#[trigger] l[k])@ == p
}

/// A sorted list of exactly the paths that satisfy `wanted`.
pub open spec fn lists_exactly(l: Seq<String>, wanted: spec_fn(Seq<char>) -> bool) -> bool {
    &&& strictly_sorted(keys(l))
    &&& forall|p: Seq<char>| lists(l, p) <==> #[trigger] wanted(p)
}

/// The delta between two manifests.
pub open spec fn is_delta(d: Delta, old: Seq<ManifestEntry>, new: Seq<ManifestEntry>) -> bool {
    &&& lists_exactly(d.added@, |p: Seq<char>| change_of(old, new, p) == Some(PathChange::Added))
    &&& lists_exactly(d.modified@, |p: Seq<char>| change_of(old, new, p) == Some(PathChange::Modified))
    &&& lists_exactly(d.deleted@, |p: Seq<char>| change_of(old, new, p) == Some(PathChange::Deleted))
    &&& lists_exactly(d.changed_paths@, |p: Seq<char>| change_of(old, new, p) is Some)
}

/// The kinds of a delta partition its changed paths: every changed path is in exactly one of
/// the added, modified and deleted lists, and those lists hold only changed paths.
pub proof fn law_delta_kinds_partition(d: Delta, old: Seq<ManifestEntry>, new: Seq<ManifestEntry>, p: Seq<char>)
    requires
        is_delta(d, old, new),
    ensures
        lists(d.changed_paths@, p) <==> (lists(d.added@, p) || lists(d.modified@, p) || lists(d.deleted@, p)),
        !(lists(d.added@, p) && lists(d.modified@, p)),
        !(lists(d.added@, p) && lists(d.deleted@, p)),
        !(lists(d.modified@, p) && lists(d.deleted@, p)),
        lists(d.changed_paths@, p) <==> change_of(old, new, p) is Some,
{
    let added = |q: Seq<char>| change_of(old, new, q) == Some(PathChange::Added);
    let modified = |q: Seq<char>| change_of(old, new, q) == Some(PathChange::Modified);
    let deleted = |q: Seq<char>| change_of(old, new, q) == Some(PathChange::Deleted);
    let changed = |q: Seq<char>| change_of(old, new, q) is Some;
    assert(lists(d.added@, p) <==> added(p));
    assert(lists(d.modified@, p) <==> modified(p));
    assert(lists(d.deleted@, p) <==> deleted(p));
    assert(lists(d.changed_paths@, p) <==> changed(p));
}

fn last_entry<'a>(m: &'a [ManifestEntry], p: &str) -> (r: Option<&'a ManifestEntry>)
    ensures
        match r {
            Some(e) => entry_at(m@, p@) == Some(*e),
            None => entry_at(m@, p@) is None,
        },
{
    let mut i: usize = m.len();
    assert(m@.take(m@.len() as int) =~= m@);
    while i > 0
        invariant
            i <= m@.len(),
            entry_at(m@, p@) == entry_at(m@.take(i as int), p@),
        decreases i,
    {
        assert(m@.take(i as int).drop_last() =~= m@.take(i - 1));
        assert(m@.take(i as int).last() == m@[i - 1]);
        if str_eq(m[i - 1].path.as_str(), p) {
            return Some(&m[i - 1]);
        }
        i = i - 1;
    }
    None
}

fn same_entry_exec(a: &ManifestEntry, b: &ManifestEntry) -> (r: bool)
    ensures
        r == same_manifest_entry(*a, *b),
{
    str_eq(a.path.as_str(), b.path.as_str()) && str_eq(a.status.as_str(), b.status.as_str())
        && crate::engine::session_commit::opt_str_eq(&a.sha256, &b.sha256)
}

fn change_exec(old: &[ManifestEntry], new: &[ManifestEntry], p: &str) -> (r: Option<PathChange>)
    ensures
        r == change_of(old@, new@, p@),
{
    match (last_entry(old, p), last_entry(new, p)) {
        (None, Some(n)) => Some(
            if str_eq(n.status.as_str(), "deleted") {
                PathChange::Deleted
            } else {
                PathChange::Added
            },
        ),
        (Some(o), None) => if !str_eq(o.status.as_str(), "deleted") {
            Some(PathChange::Deleted)
        } else {
            None
        },
        (Some(o), Some(n)) => {
            let od = str_eq(o.status.as_str(), "deleted");
            let nd = str_eq(n.status.as_str(), "deleted");
            if same_entry_exec(o, n) {
                None
            } else if !od && nd {
                Some(PathChange::Deleted)
            } else if od && !nd {
                Some(PathChange::Added)
            } else {
                Some(PathChange::Modified)
            }
        },
        (None, None) => None,
    }
}

/// Some entry of a manifest has the path.
pub open spec fn in_manifest(m: Seq<ManifestEntry>, p: Seq<char>) -> bool {
    exists|k: int| 0 <= k < m.len() && (#[trigger] m[k]).path@ == p
}

proof fn lemma_entry_at_in(m: Seq<ManifestEntry>, p: Seq<char>)
    ensures
        entry_at(m, p) is Some <==> in_manifest(m, p),
    decreases m.len(),
{
    if m.len() > 0 {
        lemma_entry_at_in(m.drop_last(), p);
        if in_manifest(m, p) && m.last().path@ != p {
            let k = choose|k: int| 0 <= k < m.len() && (#[trigger] m[k]).path@ == p;
            assert(m.drop_last()[k] == m[k]);
        }
        if in_manifest(m.drop_last(), p) {
            let k = choose|k: int| 0 <= k < m.drop_last().len() && (#[trigger] m.drop_last()[k]).path@ == p;
            assert(m[k] == m.drop_last()[k]);
        }
    }
}

fn all_paths(old: &[ManifestEntry], new: &[ManifestEntry]) -> (r: Vec<String>)
    ensures
        strictly_sorted(keys(r@)),
        forall|p: Seq<char>| lists(r@, p) <==> (in_manifest(old@, p) || in_manifest(new@, p)),
{
    let mut v: Vec<String> = Vec::new();
    let mut i: usize = 0;
    while i < old.len()
        invariant
            i <= old@.len(),
            v@.len() == i,
            forall|k: int| 0 <= k < i ==> (#[trigger] v@[k])@ == old@[k].path@,
        decreases old.len() - i,
    {
        v.push(old[i].path.clone());
        i = i + 1;
    }
    let mut j: usize = 0;
    while j < new.len()
        invariant
            j <= new@.len(),
            v@.len() == old@.len() + j,
            forall|k: int| 0 <= k < old@.len() ==> (#[trigger] v@[k])@ == old@[k].path@,
            forall|k: int| 0 <= k < j ==> (#[trigger] v@[old@.len() + k])@ == new@[k].path@,
        decreases new.len() - j,
    {
        v.push(new[j].path.clone());
        j = j + 1;
    }
    let ghost before = v@;
    let r = sort_unique(v);
    assert forall|p: Seq<char>| lists(r@, p) <==> (in_manifest(old@, p) || in_manifest(new@, p)) by {
        if lists(r@, p) {
            let k = choose|k: int| 0 <= k < r@.len() && (#[trigger] r@[k])@ == p;
            assert(has_key(r@, r@[k].key()));
            assert(has_key(before, char_key(p)));
            let m = choose|m: int| 0 <= m < before.len() && #[trigger] before[m].key() == char_key(p);
            lemma_char_key_injective(before[m]@, p);
            if m < old@.len() {
                assert(old@[m].path@ == p);
            } else {
                let k2 = m - old@.len();
                assert(before[old@.len() + k2]@ == new@[k2].path@);
                assert(new@[k2].path@ == p);
            }
        }
        if in_manifest(old@, p) {
            let k = choose|k: int| 0 <= k < old@.len() && (#[trigger] old@[k]).path@ == p;
            assert(before[k].key() == char_key(p));
            assert(has_key(before, char_key(p)));
            let m = choose|m: int| 0 <= m < r@.len() && #[trigger] r@[m].key() == char_key(p);
            lemma_char_key_injective(r@[m]@, p);
        }
        if in_manifest(new@, p) {
            let k = choose|k: int| 0 <= k < new@.len() && (#[trigger] new@[k]).path@ == p;
            assert(before[old@.len() + k].key() == char_key(p));
            assert(has_key(before, char_key(p)));
            let m = choose|m: int| 0 <= m < r@.len() && #[trigger] r@[m].key() == char_key(p);
            lemma_char_key_injective(r@[m]@, p);
        }
    }
    r
}

/// The paths collected so far: those among the first `i` sorted paths that are wanted,
/// in order, all before the next path.
pub open spec fn collected(
    l: Seq<String>,
    paths: Seq<String>,
    i: int,
    wanted: spec_fn(Seq<char>) -> bool,
) -> bool {
    &&& strictly_sorted(keys(l))
    &&& (i < paths.len() ==> forall|x: int| 0 <= x < l.len() ==> lex_lt(#[trigger] l[x].key(), paths[i].key()))
    &&& forall|p: Seq<char>|
        lists(l, p) <==> (exists|k: int| 0 <= k < i && #[trigger] paths[k]@ == p && wanted(p))
}

proof fn lemma_collect_step(
    l: Seq<String>,
    next: Seq<String>,
    paths: Seq<String>,
    i: int,
    wanted: spec_fn(Seq<char>) -> bool,
)
    requires
        strictly_sorted(keys(paths)),
        0 <= i < paths.len(),
        collected(l, paths, i, wanted),
        if wanted(paths[i]@) {
            next.len() == l.len() + 1 && next.drop_last() == l && next.last()@ == paths[i]@
        } else {
            next == l
        },
    ensures
        collected(next, paths, i + 1, wanted),
{
    if wanted(paths[i]@) {
        assert(next.last().key() == paths[i].key());
        assert forall|a: int, b: int| 0 <= a < b < next.len() implies #[trigger] lex_lt(
            keys(next)[a],
            keys(next)[b],
        ) by {
            if b < next.len() - 1 {
                assert(next[a] == l[a] && next[b] == l[b]);
                assert(lex_lt(keys(l)[a], keys(l)[b]));
            } else {
                assert(next[a] == l[a]);
            }
        }
        assert forall|p: Seq<char>|
            lists(next, p) <==> (exists|k: int| 0 <= k < i + 1 && #[trigger] paths[k]@ == p && wanted(p)) by {
            if lists(next, p) {
                let x = choose|x: int| 0 <= x < next.len() && (#[trigger] next[x])@ == p;
                if x < l.len() {
                    assert(next[x] == l[x]);
                    assert(lists(l, p));
                } else {
                    assert(paths[i]@ == p);
                }
            }
            if exists|k: int| 0 <= k < i + 1 && #[trigger] paths[k]@ == p && wanted(p) {
                let k = choose|k: int| 0 <= k < i + 1 && #[trigger] paths[k]@ == p && wanted(p);
                if k < i {
                    assert(lists(l, p));
                    let x = choose|x: int| 0 <= x < l.len() && (#[trigger] l[x])@ == p;
                    assert(next[x] == l[x]);
                } else {
                    assert(next[next.len() - 1]@ == p);
                }
            }
        }
    } else {
        assert forall|p: Seq<char>|
            lists(next, p) <==> (exists|k: int| 0 <= k < i + 1 && #[trigger] paths[k]@ == p && wanted(p)) by {
            if exists|k: int| 0 <= k < i + 1 && #[trigger] paths[k]@ == p && wanted(p) {
                let k = choose|k: int| 0 <= k < i + 1 && #[trigger] paths[k]@ == p && wanted(p);
                if k == i {
                    assert(false);
                }
            }
        }
    }
    if i + 1 < paths.len() {
        assert(lex_lt(keys(paths)[i], keys(paths)[i + 1]));
        assert forall|x: int| 0 <= x < next.len() implies lex_lt(#[trigger] next[x].key(), paths[i + 1].key()) by {
            if x < l.len() {
                assert(next[x] == l[x]);
                lemma_lex_transitive(l[x].key(), paths[i].key(), paths[i + 1].key());
            }
        }
    }
}

/// A path among the sorted paths that is wanted.
proof fn lemma_collected_all(
    l: Seq<String>,
    paths: Seq<String>,
    wanted: spec_fn(Seq<char>) -> bool,
    old: Seq<ManifestEntry>,
    new: Seq<ManifestEntry>,
)
    requires
        collected(l, paths, paths.len() as int, wanted),
        forall|p: Seq<char>| lists(paths, p) <==> (in_manifest(old, p) || in_manifest(new, p)),
        forall|p: Seq<char>| #[trigger] wanted(p) ==> change_of(old, new, p) is Some,
    ensures
        lists_exactly(l, wanted),
{
    assert forall|p: Seq<char>| lists(l, p) <==> #[trigger] wanted(p) by {
        if wanted(p) {
            lemma_entry_at_in(old, p);
            lemma_entry_at_in(new, p);
            assert(lists(paths, p));
            let k = choose|k: int| 0 <= k < paths.len() && (#[trigger] paths[k])@ == p;
            assert(paths[k]@ == p && wanted(p));
        }
    }
}

fn push_if(l: &mut Vec<String>, wanted: bool, path: &String)
    ensures
        if wanted {
            final(l)@.len() == old(l)@.len() + 1 && final(l)@.drop_last() == old(l)@ && final(l)@.last()@
                == path@
        } else {
            final(l)@ == old(l)@
        },
{
    if wanted {
        l.push(path.clone());
        assert(l@.drop_last() =~= old(l)@);
    }
}

/// The paths that changed between two manifests, by kind, each list sorted, and all of them
/// together.
pub fn diff_manifests(old_manifest: &[ManifestEntry], new_manifest: &[ManifestEntry]) -> (d: Delta)
    ensures
        is_delta(d, old_manifest@, new_manifest@),
{
    let paths = all_paths(old_manifest, new_manifest);
    let ghost old = old_manifest@;
    let ghost new = new_manifest@;
    let ghost wa = |p: Seq<char>| change_of(old, new, p) == Some(PathChange::Added);
    let ghost wm = |p: Seq<char>| change_of(old, new, p) == Some(PathChange::Modified);
    let ghost wd = |p: Seq<char>| change_of(old, new, p) == Some(PathChange::Deleted);
    let ghost wc = |p: Seq<char>| change_of(old, new, p) is Some;
    let mut added: Vec<String> = Vec::new();
    let mut modified: Vec<String> = Vec::new();
    let mut deleted: Vec<String> = Vec::new();
    let mut changed: Vec<String> = Vec::new();
    let mut i: usize = 0;
    while i < paths.len()
        invariant
            i <= paths@.len(),
            old == old_manifest@,
            new == new_manifest@,
            strictly_sorted(keys(paths@)),
            wa == (|p: Seq<char>| change_of(old, new, p) == Some(PathChange::Added)),
            wm == (|p: Seq<char>| change_of(old, new, p) == Some(PathChange::Modified)),
            wd == (|p: Seq<char>| change_of(old, new, p) == Some(PathChange::Deleted)),
            wc == (|p: Seq<char>| change_of(old, new, p) is Some),
            collected(added@, paths@, i as int, wa),
            collected(modified@, paths@, i as int, wm),
            collected(deleted@, paths@, i as int, wd),
            collected(changed@, paths@, i as int, wc),
        decreases paths.len() - i,
    {
        let c = change_exec(old_manifest, new_manifest, paths[i].as_str());
        let ghost (a0, m0, d0, c0) = (added@, modified@, deleted@, changed@);
        push_if(&mut added, c == Some(PathChange::Added), &paths[i]);
        push_if(&mut modified, c == Some(PathChange::Modified), &paths[i]);
        push_if(&mut deleted, c == Some(PathChange::Deleted), &paths[i]);
        push_if(&mut changed, c.is_some(), &paths[i]);
        proof {
            lemma_collect_step(a0, added@, paths@, i as int, wa);
            lemma_collect_step(m0, modified@, paths@, i as int, wm);
            lemma_collect_step(d0, deleted@, paths@, i as int, wd);
            lemma_collect_step(c0, changed@, paths@, i as int, wc);
        }
        i = i + 1;
    }
    proof {
        lemma_collected_all(added@, paths@, wa, old, new);
        lemma_collected_all(modified@, paths@, wm, old, new);
        lemma_collected_all(deleted@, paths@, wd, old, new);
        lemma_collected_all(changed@, paths@, wc, old, new);
    }
    Delta { added, modified, deleted, changed_paths: changed }
}

/// A manifest compared with itself has no changes.
pub proof fn law_no_change_against_itself(m: Seq<ManifestEntry>, p: Seq<char>)
    ensures
        change_of(m, m, p) is None,
{
}

/// The state of visible checkpointing in a repository.
#[derive(Debug, Clone)]
pub struct ManagerState {
    pub version: u32,
    pub generation: u64,
    pub last_checkpoint_fingerprint: Option<String>,
    pub last_checkpoint_manifest: Vec<ManifestEntry>,
    pub last_checkpoint_commit: Option<String>,
    pub last_checkpoint_at: Option<u64>,
    pub pending_turn_count: u32,
    pub pending_first_seen_at: Option<u64>,
    pub pending_last_seen_at: Option<u64>,
    /// Documentation is behind the code and the next commit should be a milestone.
    pub docs_backlog: bool,
}

/// `a - b`, or zero when `b` is larger.
pub open spec fn sat_sub_u64(a: u64, b: u64) -> u64 {
    if a >= b {
        (a - b) as u64
    } else {
        0
    }
}

/// `a * b`, or the largest `u64` when it does not fit.
pub open spec fn sat_mul_u64(a: u64, b: u64) -> u64 {
    if a * b <= u64::MAX {
        (a * b) as u64
    } else {
        u64::MAX
    }
}

/// A change calls for a checkpoint when it is not empty and this turn reaches the turn
/// threshold, or enough paths changed, or the last checkpoint is old enough.
pub open spec fn spec_should_checkpoint(d: Delta, m: ManagerState, c: CommitConfig, now: u64) -> bool {
    if d.changed_paths@.len() == 0 {
        false
    } else if m.pending_turn_count + 1 >= c.checkpoint_turn_threshold {
        true
    } else if (d.changed_paths@.len() as u32) >= c.checkpoint_file_threshold {
        true
    } else {
        match m.last_checkpoint_at {
            None => false,
            Some(last) => sat_sub_u64(now, last) >= sat_mul_u64(c.checkpoint_age_minutes, 60),
        }
    }
}

/// Whether a change calls for a checkpoint at `now`.
pub fn should_checkpoint(delta: &Delta, manager: &ManagerState, config: &CommitConfig, now: u64) -> (r:
    bool)
    requires
        manager.pending_turn_count < u32::MAX,
    ensures
        r == spec_should_checkpoint(*delta, *manager, *config, now),
{
    if delta.changed_paths.len() == 0 {
        return false;
    }
    if manager.pending_turn_count + 1 >= config.checkpoint_turn_threshold {
        return true;
    }
    if delta.changed_paths.len() as u32 >= config.checkpoint_file_threshold {
        return true;
    }
    match manager.last_checkpoint_at {
        None => false,
        Some(last) => {
            let age_limit = match config.checkpoint_age_minutes.checked_mul(60) {
                Some(v) => v,
                None => u64::MAX,
            };
            now.saturating_sub(last) >= age_limit
        },
    }
}

/// Records a turn whose change did not call for a checkpoint.
pub fn record_pending_turn(manager: &mut ManagerState, now: u64)
    requires
        old(manager).pending_turn_count < u32::MAX,
    ensures
        final(manager).pending_first_seen_at == (match old(manager).pending_first_seen_at {
            Some(t) => Some(t),
            None => Some(now),
        }),
        final(manager).pending_last_seen_at == Some(now),
        final(manager).pending_turn_count == old(manager).pending_turn_count + 1,
        final(manager).generation == old(manager).generation,
        final(manager).last_checkpoint_fingerprint == old(manager).last_checkpoint_fingerprint,
        final(manager).last_checkpoint_manifest == old(manager).last_checkpoint_manifest,
        final(manager).last_checkpoint_commit == old(manager).last_checkpoint_commit,
        final(manager).last_checkpoint_at == old(manager).last_checkpoint_at,
{
    if manager.pending_first_seen_at.is_none() {
        manager.pending_first_seen_at = Some(now);
    }
    manager.pending_last_seen_at = Some(now);
    manager.pending_turn_count = manager.pending_turn_count + 1;
}

/// Records a visible checkpoint commit of a snapshot: its fingerprint and manifest, the
/// commit, the time, nothing pending, one generation more.
pub fn record_checkpoint(
    manager: &mut ManagerState,
    fingerprint: String,
    manifest: Vec<ManifestEntry>,
    commit: String,
    now: u64,
)
    requires
        old(manager).generation < u64::MAX,
    ensures
        opt_text(final(manager).last_checkpoint_fingerprint) == Some(fingerprint@),
        final(manager).last_checkpoint_manifest@ == manifest@,
        opt_text(final(manager).last_checkpoint_commit) == Some(commit@),
        final(manager).last_checkpoint_at == Some(now),
        final(manager).pending_turn_count == 0,
        final(manager).pending_first_seen_at is None,
        final(manager).pending_last_seen_at is None,
        final(manager).generation == old(manager).generation + 1,
        final(manager).version == old(manager).version,
        final(manager).docs_backlog == old(manager).docs_backlog,
{
    manager.last_checkpoint_fingerprint = Some(fingerprint);
    manager.last_checkpoint_manifest = manifest;
    manager.last_checkpoint_commit = Some(commit);
    manager.last_checkpoint_at = Some(now);
    manager.pending_turn_count = 0;
    manager.pending_first_seen_at = None;
    manager.pending_last_seen_at = None;
    manager.generation = manager.generation + 1;
}

/// A path lies under one of the roots.
pub open spec fn under_roots(path: Seq<char>, roots: Seq<String>) -> bool {
    exists|i: int| 0 <= i < roots.len() && path_starts_with(path, (#[trigger] roots[i])@)
}

/// Whether a path lies under one of the roots.
pub fn is_under_roots(path: &str, roots: &[String]) -> (r: bool)
    ensures
        r == under_roots(path@, roots@),
{
    let mut i: usize = 0;
    while i < roots.len()
        invariant
            i <= roots@.len(),
            forall|k: int| 0 <= k < i ==> !path_starts_with(path@, (#[trigger] roots@[k])@),
        decreases roots.len() - i,
    {
        if starts_with_path(path, roots[i].as_str()) {
            return true;
        }
        i = i + 1;
    }
    false
}

/// Some path of the list lies under one of the roots.
pub open spec fn any_under_roots(paths: Seq<String>, roots: Seq<String>) -> bool {
    exists|k: int| 0 <= k < paths.len() && under_roots((#[trigger] paths[k])@, roots)
}

fn any_path_under_roots(paths: &[String], roots: &[String]) -> (r: bool)
    ensures
        r == any_under_roots(paths@, roots@),
{
    let mut k: usize = 0;
    while k < paths.len()
        invariant
            k <= paths@.len(),
            forall|j: int| 0 <= j < k ==> !under_roots((#[trigger] paths@[j])@, roots@),
        decreases paths.len() - k,
    {
        if is_under_roots(paths[k].as_str(), roots) {
            return true;
        }
        k = k + 1;
    }
    false
}

/// Whether some changed path lies under the roots.
pub fn has_changes_under_roots(delta: &Delta, roots: &[String]) -> (r: bool)
    ensures
        r == any_under_roots(delta.changed_paths@, roots@),
{
    any_path_under_roots(delta.changed_paths.as_slice(), roots)
}

/// Whether a path was added or deleted under the source roots.
pub fn source_root_layout_changed(delta: &Delta, source_roots: &[String]) -> (r: bool)
    ensures
        r == (any_under_roots(delta.added@, source_roots@) || any_under_roots(
            delta.deleted@,
            source_roots@,
        )),
{
    any_path_under_roots(delta.added.as_slice(), source_roots) || any_path_under_roots(
        delta.deleted.as_slice(),
        source_roots,
    )
}

/// The first pattern that does not parse, in order.
pub open spec fn first_bad_glob(globs: Seq<String>) -> Option<int> {
    if exists|i: int| 0 <= i < globs.len() && !glob_parses((#[trigger] globs[i])@) {
        Some(
            choose|i: int|
                0 <= i < globs.len() && !glob_parses((#[trigger] globs[i])@) && forall|j: int|
                    0 <= j < i ==> glob_parses((#[trigger] globs[j])@),
        )
    } else {
        None
    }
}

/// Some changed path matches some pattern.
pub open spec fn glob_hit(paths: Seq<String>, globs: Seq<String>) -> bool {
    exists|k: int, i: int|
        0 <= k < paths.len() && 0 <= i < globs.len() && glob_matches(
            (#[trigger] globs[i])@,
            (#[trigger] paths[k])@,
        )
}

/// Why the milestone patterns could not be used, as contracts speak of it.
pub enum GlobFault {
    /// This pattern (the first that does not parse).
    Invalid(Seq<char>),
    /// Every pattern parses, but the set of them cannot be built.
    Unbuildable,
}

/// Why the milestone patterns could not be used.
#[derive(Debug, Clone)]
pub enum GlobError {
    /// The pattern does not parse.
    Invalid { pattern: String },
    /// The patterns parse, but the matcher built from them could not be compiled.
    Unbuildable,
}

/// The error as contracts speak of it.
pub open spec fn glob_fault(e: GlobError) -> GlobFault {
    match e {
        GlobError::Invalid { pattern } => GlobFault::Invalid(pattern@),
        GlobError::Unbuildable => GlobFault::Unbuildable,
    }
}

/// What the milestone patterns say of the changed paths: the first pattern that does not
/// parse, or a set that cannot be built, is an error; otherwise whether a pattern matches a
/// changed path.
pub open spec fn spec_milestone_glob(paths: Seq<String>, globs: Seq<String>) -> Result<bool, GlobFault> {
    if exists|i: int| 0 <= i < globs.len() && !glob_parses((#[trigger] globs[i])@) {
        Err(GlobFault::Invalid(globs[first_bad_glob(globs)->0]@))
    } else if !glob_set_builds(glob_texts(globs)) {
        Err(GlobFault::Unbuildable)
    } else {
        Ok(glob_hit(paths, globs))
    }
}

/// Whether a changed path matches a milestone glob, with the patterns built into one set.
pub fn matches_milestone_glob(delta: &Delta, globs: &[String]) -> (r: Result<bool, GlobError>)
    ensures
        match r {
            Ok(b) => spec_milestone_glob(delta.changed_paths@, globs@) == Ok::<bool, GlobFault>(b),
            Err(e) => spec_milestone_glob(delta.changed_paths@, globs@) == Err::<bool, GlobFault>(
                glob_fault(e),
            ),
        },
{
    let mut i: usize = 0;
    while i < globs.len()
        invariant
            i <= globs@.len(),
            forall|j: int| 0 <= j < i ==> glob_parses((#[trigger] globs@[j])@),
        decreases globs.len() - i,
    {
        if !glob_is_valid(globs[i].as_str()) {
            proof {
                let f = first_bad_glob(globs@)->0;
                assert(!glob_parses(globs@[i as int]@));
                assert(0 <= f < globs@.len() && !glob_parses(globs@[f]@) && forall|j: int|
                    0 <= j < f ==> glob_parses((#[trigger] globs@[j])@));
                if (f as int) < (i as int) {
                    assert(glob_parses(globs@[f]@));
                }
                if (i as int) < f {
                    assert(glob_parses(globs@[i as int]@));
                }
            }
            return Err(GlobError::Invalid { pattern: globs[i].clone() });
        }
        i = i + 1;
    }
    let paths = delta.changed_paths.as_slice();
    let result = glob_set_matches(globs, paths);
    let hits = match result {
        Some(v) => v,
        None => return Err(GlobError::Unbuildable),
    };

    let mut found = false;
    let mut k: usize = 0;
    while k < hits.len()
        invariant
            k <= hits@.len(),
            hits@.len() == paths@.len(),
            paths@ == delta.changed_paths@,
            forall|a: int|
                #![trigger hits@[a]]
                0 <= a < paths@.len() ==> (hits@[a] <==> exists|g: int|
                    #![trigger globs@[g]]
                    0 <= g < globs@.len() && glob_matches(globs@[g]@, paths@[a]@)),
            found == exists|a: int, g: int|
                0 <= a < k && 0 <= g < globs@.len() && glob_matches(
                    (#[trigger] globs@[g])@,
                    (#[trigger] paths@[a])@,
                ),
        decreases hits.len() - k,
    {
        if hits[k] {
            found = true;
            proof {
                assert(hits@[k as int]);
                let g = choose|g: int| 0 <= g < globs@.len() && glob_matches((#[trigger] globs@[g])@, paths@[k as int]@);
                assert(glob_matches(globs@[g]@, paths@[k as int]@));
            }
        } else {
            assert forall|a: int, g: int|
                0 <= a < k + 1 && 0 <= g < globs@.len() && glob_matches((#[trigger] globs@[g])@, (#[trigger] paths@[a])@)
                implies a < k by {
                if a == k {
                    assert(!hits@[a]);
                }
            }
        }
        k = k + 1;
    }
    Ok(found)
}

/// The kind of commit a change calls for: none for no change; without docs, a checkpoint
/// when due; with docs, a milestone for a docs backlog, many changed paths, a milestone glob,
/// a source layout change, or source and test changes over more than one turn; otherwise a
/// checkpoint when due.
pub open spec fn spec_classify_kind(
    d: Delta,
    m: ManagerState,
    c: SprocketConfig,
    now: u64,
) -> Result<CommitKind, GlobFault> {
    let checkpoint = if spec_should_checkpoint(d, m, c.commit, now) {
        CommitKind::Checkpoint
    } else {
        CommitKind::NoCommit
    };
    if d.changed_paths@.len() == 0 {
        Ok(CommitKind::NoCommit)
    } else if !c.docs.enabled {
        Ok(checkpoint)
    } else if m.docs_backlog {
        Ok(CommitKind::Milestone)
    } else if (d.changed_paths@.len() as u32) >= c.commit.milestone_file_threshold {
        Ok(CommitKind::Milestone)
    } else if spec_milestone_glob(d.changed_paths@, c.docs.triggers.milestone_globs@) is Err {
        Err(spec_milestone_glob(d.changed_paths@, c.docs.triggers.milestone_globs@)->Err_0)
    } else if glob_hit(d.changed_paths@, c.docs.triggers.milestone_globs@) {
        Ok(CommitKind::Milestone)
    } else if any_under_roots(d.added@, c.docs.triggers.source_roots@) || any_under_roots(
        d.deleted@,
        c.docs.triggers.source_roots@,
    ) {
        Ok(CommitKind::Milestone)
    } else if any_under_roots(d.changed_paths@, c.docs.triggers.source_roots@) && any_under_roots(
        d.changed_paths@,
        c.docs.triggers.test_roots@,
    ) && m.pending_turn_count >= 1 {
        Ok(CommitKind::Milestone)
    } else {
        Ok(checkpoint)
    }
}

/// With docs enabled and no backlog, a change below the milestone file threshold whose
/// milestone patterns can be used is a milestone when it adds or deletes a path that lies
/// under a source root (a path that is the root or has it as leading components).
pub proof fn law_source_layout_change_is_milestone(
    d: Delta,
    m: ManagerState,
    c: SprocketConfig,
    now: u64,
    j: int,
    i: int,
)
    requires
        c.docs.enabled,
        !m.docs_backlog,
        d.changed_paths@.len() > 0,
        (d.changed_paths@.len() as u32) < c.commit.milestone_file_threshold,
        spec_milestone_glob(d.changed_paths@, c.docs.triggers.milestone_globs@) is Ok,
        0 <= i < c.docs.triggers.source_roots@.len(),
        (0 <= j < d.added@.len() && path_starts_with(d.added@[j]@, c.docs.triggers.source_roots@[i]@))
            || (0 <= j < d.deleted@.len() && path_starts_with(
            d.deleted@[j]@,
            c.docs.triggers.source_roots@[i]@,
        )),
    ensures
        spec_classify_kind(d, m, c, now) == Ok::<CommitKind, GlobFault>(CommitKind::Milestone),
{
    if 0 <= j < d.added@.len() && path_starts_with(d.added@[j]@, c.docs.triggers.source_roots@[i]@) {
        assert(under_roots(d.added@[j]@, c.docs.triggers.source_roots@));
        assert(any_under_roots(d.added@, c.docs.triggers.source_roots@));
    } else {
        assert(under_roots(d.deleted@[j]@, c.docs.triggers.source_roots@));
        assert(any_under_roots(d.deleted@, c.docs.triggers.source_roots@));
    }
}

/// A checkpoint is due for a non-empty change when, counting this turn, the pending turns
/// reach the turn threshold, or the changed paths reach the file threshold, or the last
/// checkpoint is at least the age threshold old (elapsed time and threshold saturating;
/// never, with no checkpoint yet).
pub open spec fn checkpoint_due(d: Delta, m: ManagerState, c: CommitConfig, now: u64) -> bool {
    ||| m.pending_turn_count + 1 >= c.checkpoint_turn_threshold
    ||| (d.changed_paths@.len() as u32) >= c.checkpoint_file_threshold
    ||| (m.last_checkpoint_at matches Some(last) && (if now >= last {
        now - last
    } else {
        0
    }) >= (if c.checkpoint_age_minutes * 60 <= u64::MAX {
        c.checkpoint_age_minutes * 60
    } else {
        u64::MAX as int
    }))
}

/// An empty change never commits; with docs off a non-empty change is never a milestone, and
/// is a checkpoint exactly when one is due.
pub proof fn law_without_docs_only_checkpoints(d: Delta, m: ManagerState, c: SprocketConfig, now: u64)
    ensures
        d.changed_paths@.len() == 0 ==> spec_classify_kind(d, m, c, now) == Ok::<CommitKind, GlobFault>(
            CommitKind::NoCommit,
        ),
        (d.changed_paths@.len() > 0 && !c.docs.enabled) ==> spec_classify_kind(d, m, c, now) == Ok::<
            CommitKind,
            GlobFault,
        >(if checkpoint_due(d, m, c.commit, now) {
            CommitKind::Checkpoint
        } else {
            CommitKind::NoCommit
        }),
{
}

/// With docs enabled, a non-empty change is a milestone when docs are behind, when it reaches
/// the milestone file threshold, and, once the milestone patterns can be used, when one of
/// them matches a changed path or when it changes paths under both a source root and a test
/// root after an earlier pending turn.
pub proof fn law_milestone_triggers(
    d: Delta,
    m: ManagerState,
    c: SprocketConfig,
    now: u64,
    k: int,
    i: int,
    kt: int,
    it: int,
)
    requires
        c.docs.enabled,
        d.changed_paths@.len() > 0,
    ensures
        m.docs_backlog ==> spec_classify_kind(d, m, c, now) == Ok::<CommitKind, GlobFault>(
            CommitKind::Milestone,
        ),
        (d.changed_paths@.len() as u32) >= c.commit.milestone_file_threshold ==> spec_classify_kind(
            d,
            m,
            c,
            now,
        ) == Ok::<CommitKind, GlobFault>(CommitKind::Milestone),
        (spec_milestone_glob(d.changed_paths@, c.docs.triggers.milestone_globs@) is Ok && 0 <= k
            < d.changed_paths@.len() && 0 <= i < c.docs.triggers.milestone_globs@.len() && glob_matches(
            c.docs.triggers.milestone_globs@[i]@,
            d.changed_paths@[k]@,
        )) ==> spec_classify_kind(d, m, c, now) == Ok::<CommitKind, GlobFault>(CommitKind::Milestone),
        (spec_milestone_glob(d.changed_paths@, c.docs.triggers.milestone_globs@) is Ok
            && m.pending_turn_count >= 1 && 0 <= k < d.changed_paths@.len() && 0 <= i
            < c.docs.triggers.source_roots@.len() && path_starts_with(
            d.changed_paths@[k]@,
            c.docs.triggers.source_roots@[i]@,
        ) && 0 <= kt < d.changed_paths@.len() && 0 <= it < c.docs.triggers.test_roots@.len()
            && path_starts_with(d.changed_paths@[kt]@, c.docs.triggers.test_roots@[it]@))
            ==> spec_classify_kind(d, m, c, now) == Ok::<CommitKind, GlobFault>(CommitKind::Milestone),
{
    if 0 <= k < d.changed_paths@.len() && 0 <= i < c.docs.triggers.milestone_globs@.len() {
        if glob_matches(c.docs.triggers.milestone_globs@[i]@, d.changed_paths@[k]@) {
            assert(glob_hit(d.changed_paths@, c.docs.triggers.milestone_globs@));
        }
    }
    if 0 <= k < d.changed_paths@.len() && 0 <= i < c.docs.triggers.source_roots@.len()
        && path_starts_with(d.changed_paths@[k]@, c.docs.triggers.source_roots@[i]@) {
        assert(under_roots(d.changed_paths@[k]@, c.docs.triggers.source_roots@));
        assert(any_under_roots(d.changed_paths@, c.docs.triggers.source_roots@));
    }
    if 0 <= kt < d.changed_paths@.len() && 0 <= it < c.docs.triggers.test_roots@.len()
        && path_starts_with(d.changed_paths@[kt]@, c.docs.triggers.test_roots@[it]@) {
        assert(under_roots(d.changed_paths@[kt]@, c.docs.triggers.test_roots@));
        assert(any_under_roots(d.changed_paths@, c.docs.triggers.test_roots@));
    }
}

/// Decides what kind of commit a change calls for at `now`.
pub fn classify_kind(delta: &Delta, manager: &ManagerState, config: &SprocketConfig, now: u64) -> (r:
    Result<CommitKind, GlobError>)
    requires
        manager.pending_turn_count < u32::MAX,
    ensures
        match r {
            Ok(k) => spec_classify_kind(*delta, *manager, *config, now) == Ok::<CommitKind, GlobFault>(k),
            Err(e) => spec_classify_kind(*delta, *manager, *config, now) == Err::<CommitKind, GlobFault>(
                glob_fault(e),
            ),
        },
{
    if delta.changed_paths.len() == 0 {
        return Ok(CommitKind::NoCommit);
    }
    if !config.docs.enabled {
        return Ok(
            if should_checkpoint(delta, manager, &config.commit, now) {
                CommitKind::Checkpoint
            } else {
                CommitKind::NoCommit
            },
        );
    }
    if manager.docs_backlog {
        return Ok(CommitKind::Milestone);
    }
    if delta.changed_paths.len() as u32 >= config.commit.milestone_file_threshold {
        return Ok(CommitKind::Milestone);
    }
    let globs = config.docs.triggers.milestone_globs.as_slice();
    match matches_milestone_glob(delta, globs) {
        Err(e) => return Err(e),
        Ok(true) => return Ok(CommitKind::Milestone),
        Ok(false) => {},
    }
    if source_root_layout_changed(delta, config.docs.triggers.source_roots.as_slice()) {
        return Ok(CommitKind::Milestone);
    }
    if has_changes_under_roots(delta, config.docs.triggers.source_roots.as_slice())
        && has_changes_under_roots(delta, config.docs.triggers.test_roots.as_slice())
        && manager.pending_turn_count >= 1 {
        return Ok(CommitKind::Milestone);
    }
    Ok(
        if should_checkpoint(delta, manager, &config.commit, now) {
            CommitKind::Checkpoint
        } else {
            CommitKind::NoCommit
        },
    )
}

} // verus!
