//! Path-level differences between two manifests.
use vstd::prelude::*;

use crate::domain::manifest::{entry_views, EntryView, StrictEntry};
use crate::domain::repopath::{lemma_byte_key_injective, RepoPath};
use crate::order::{
    byte_key, has_key, insert_sorted_unique, keys, lemma_strictly_sorted_keys_unique, lex_lt,
    strictly_sorted, upsert_sorted, SortKey,
};

verus! {

/// The entry a manifest records for a path: the last entry with that path.
pub open spec fn lookup(entries: Seq<StrictEntry>, p: Seq<u8>) -> Option<EntryView>
    decreases entries.len(),
{
    if entries.len() == 0 {
        None
    } else if entries.last().path@ == p {
        Some(entries.last()@)
    } else {
        lookup(entries.drop_last(), p)
    }
}

/// The view of an optional entry.
pub open spec fn opt_entry_view(e: Option<StrictEntry>) -> Option<EntryView> {
    match e {
        Some(x) => Some(x@),
        None => None,
    }
}

/// Two optional entries describe the same file: both absent, or same mode and blob id.
pub open spec fn same_entry_view(a: Option<EntryView>, b: Option<EntryView>) -> bool {
    match (a, b) {
        (None, None) => true,
        (Some(l), Some(r)) => l.mode == r.mode && l.git_oid == r.git_oid,
        _ => false,
    }
}

/// The path differs between the two manifests.
pub open spec fn path_changed(old: Seq<StrictEntry>, new: Seq<StrictEntry>, p: Seq<u8>) -> bool {
    !same_entry_view(lookup(old, p), lookup(new, p))
}

/// One changed path with its old and new entries.
#[derive(Debug, Clone)]
pub struct PathDelta {
    pub path: RepoPath,
    pub old: Option<StrictEntry>,
    pub new: Option<StrictEntry>,
}

impl SortKey for PathDelta {
    open spec fn key(&self) -> Seq<int> {
        byte_key(self.path@)
    }

    fn compare_key(&self, other: &Self) -> (r: i8) {
        self.path.compare_key(&other.path)
    }
}

/// A manifest indexed by path: sorted by path, one entry per path.
pub open spec fn is_path_index(index: Seq<StrictEntry>, entries: Seq<StrictEntry>) -> bool {
    &&& strictly_sorted(keys(index))
    &&& forall|i: int| 0 <= i < index.len() ==> Some(#[trigger] index[i]@) == lookup(entries, index[i].path@)
    &&& forall|p: Seq<u8>| #[trigger] lookup(entries, p) is Some ==> has_key(index, byte_key(p))
}

/// Whether two optional entries describe the same file.
pub fn same_entry(old: Option<&StrictEntry>, new: Option<&StrictEntry>) -> (r: bool)
    ensures
        r == same_entry_view(
            match old { Some(e) => Some(e@), None => None },
            match new { Some(e) => Some(e@), None => None },
        ),
{
    match (old, new) {
        (None, None) => true,
        (Some(left), Some(right)) => left.mode == right.mode && left.git_oid == right.git_oid,
        _ => false,
    }
}

/// Indexes a manifest by path; when a path occurs more than once the last entry wins.
pub fn entries_by_path(entries: &[StrictEntry]) -> (index: Vec<StrictEntry>)
    ensures
        is_path_index(index@, entries@),
{
    let mut index: Vec<StrictEntry> = Vec::new();
    let mut i: usize = 0;
    while i < entries.len()
        invariant
            i <= entries.len(),
            is_path_index(index@, entries@.take(i as int)),
        decreases entries.len() - i,
    {
        let e = entries[i].duplicate();
        let ghost before = index@;
        let ghost pre = entries@.take(i as int);
        let ghost post = entries@.take(i + 1);
        assert(post.drop_last() =~= pre);
        assert(post.last() == entries@[i as int]);
        upsert_sorted(&mut index, e);
        proof {
            assert forall|p: Seq<u8>| #[trigger] lookup(post, p) == (if p == e.path@ { Some(e@) } else { lookup(pre, p) }) by {}
            assert forall|k: int| 0 <= k < index@.len() implies Some(#[trigger] index@[k]@) == lookup(post, index@[k].path@) by {
                if has_key(before, e.key()) {
                    let pos = choose|pos: int| 0 <= pos < before.len() && #[trigger] before[pos].key() == e.key() && index@ == before.update(pos, e);
                    if k != pos {
                        assert(index@[k] == before[k]);
                        lemma_byte_key_injective(before[k].path@, e.path@);
                        if before[k].path@ == e.path@ {
                            lemma_strictly_sorted_keys_unique(before, k, pos);
                        }
                    }
                } else {
                    let pos = choose|pos: int| 0 <= pos <= before.len() && index@ == before.insert(pos, e);
                    if k < pos {
                        assert(index@[k] == before[k]);
                    } else if k > pos {
                        assert(index@[k] == before[k - 1]);
                    }
                    if k != pos {
                        let kk = if k < pos { k } else { k - 1 };
                        if before[kk].path@ == e.path@ {
                            assert(before[kk].key() == e.key());
                            assert(has_key(before, e.key()));
                        }
                    }
                }
            }
            assert forall|p: Seq<u8>| #[trigger] lookup(post, p) is Some implies has_key(index@, byte_key(p)) by {
                if p == e.path@ {
                    if has_key(before, e.key()) {
                        let pos = choose|pos: int| 0 <= pos < before.len() && #[trigger] before[pos].key() == e.key() && index@ == before.update(pos, e);
                        assert(index@[pos] == e);
                    } else {
                        let pos = choose|pos: int| 0 <= pos <= before.len() && index@ == before.insert(pos, e);
                        assert(index@[pos] == e);
                    }
                } else {
                    assert(has_key(before, byte_key(p)));
                    let m = choose|m: int| 0 <= m < before.len() && #[trigger] before[m].key() == byte_key(p);
                    if has_key(before, e.key()) {
                        let pos = choose|pos: int| 0 <= pos < before.len() && #[trigger] before[pos].key() == e.key() && index@ == before.update(pos, e);
                        if m == pos {
                            lemma_byte_key_injective(p, e.path@);
                        }
                        assert(index@[m] == before[m]);
                    } else {
                        let pos = choose|pos: int| 0 <= pos <= before.len() && index@ == before.insert(pos, e);
                        if m < pos {
                            assert(index@[m] == before[m]);
                        } else {
                            assert(index@[m + 1] == before[m]);
                        }
                    }
                }
            }
        }
        i = i + 1;
    }
    assert(entries@.take(entries@.len() as int) =~= entries@);
    index
}

/// Position of the entry for `path` in a path index.
pub fn find_in_index(index: &Vec<StrictEntry>, path: &RepoPath) -> (r: Option<usize>)
    requires
        strictly_sorted(keys(index@)),
    ensures
        r matches Some(i) ==> i < index@.len() && index@[i as int].path@ == path@,
        r is None ==> !has_key(index@, byte_key(path@)),
{
    let mut i: usize = 0;
    while i < index.len()
        invariant
            i <= index.len(),
            forall|k: int| 0 <= k < i ==> #[trigger] index@[k].key() != byte_key(path@),
        decreases index.len() - i,
    {
        if index[i].path.same_as(path) {
            return Some(i);
        }
        proof { lemma_byte_key_injective(index@[i as int].path@, path@); }
        i = i + 1;
    }
    None
}

/// A delta records the manifests' entries for its path, and that path changed.
pub open spec fn delta_matches(d: PathDelta, old: Seq<StrictEntry>, new: Seq<StrictEntry>) -> bool {
    &&& opt_entry_view(d.old) == lookup(old, d.path@)
    &&& opt_entry_view(d.new) == lookup(new, d.path@)
    &&& path_changed(old, new, d.path@)
}

/// The full result of comparing two manifests: every changed path once, in path order.
pub open spec fn is_diff(res: Seq<PathDelta>, old: Seq<StrictEntry>, new: Seq<StrictEntry>) -> bool {
    &&& strictly_sorted(keys(res))
    &&& forall|i: int| 0 <= i < res.len() ==> delta_matches(#[trigger] res[i], old, new)
    &&& forall|p: Seq<u8>| #[trigger] path_changed(old, new, p) ==> has_key(res, byte_key(p))
}

/// The set of paths that differ between two manifests.
pub open spec fn changed_path_set(old: Seq<StrictEntry>, new: Seq<StrictEntry>) -> Set<Seq<u8>> {
    Set::new(|p: Seq<u8>| path_changed(old, new, p))
}

/// Adds the paths of a path index to a sorted path list.
fn collect_paths(all: &mut Vec<RepoPath>, index: &Vec<StrictEntry>)
    requires
        strictly_sorted(keys(old(all)@)),
    ensures
        strictly_sorted(keys(final(all)@)),
        forall|k: Seq<int>| #[trigger] has_key(final(all)@, k) <==> (has_key(old(all)@, k) || has_key(index@, k)),
{
    let mut i: usize = 0;
    while i < index.len()
        invariant
            i <= index.len(),
            strictly_sorted(keys(all@)),
            forall|k: Seq<int>| has_key(all@, k) <==> (has_key(old(all)@, k) || has_key(index@.take(i as int), k)),
        decreases index.len() - i,
    {
        let ghost before = all@;
        let p = index[i].path.duplicate();
        let ghost pk = p.key();
        assert(pk == index@[i as int].key());
        let inserted = insert_sorted_unique(all, p);
        proof {
            let pre = index@.take(i as int);
            let post = index@.take(i + 1);
            assert(post[i as int] == index@[i as int]);
            assert(has_key(post, pk));
            assert forall|k: Seq<int>| has_key(pre, k) implies has_key(post, k) by {
                let j = choose|j: int| 0 <= j < pre.len() && #[trigger] pre[j].key() == k;
                assert(post[j] == pre[j]);
            }
            assert forall|k: Seq<int>| has_key(post, k) implies has_key(pre, k) || k == pk by {
                let j = choose|j: int| 0 <= j < post.len() && #[trigger] post[j].key() == k;
                if j < i {
                    assert(pre[j] == post[j]);
                }
            }
            if inserted {
                let pos = choose|pos: int| 0 <= pos <= before.len() && all@ == before.insert(pos, p);
                assert(all@[pos] == p);
                assert forall|k: Seq<int>| has_key(all@, k) implies has_key(before, k) || k == pk by {
                    let m = choose|m: int| 0 <= m < all@.len() && #[trigger] all@[m].key() == k;
                    if m < pos {
                        assert(all@[m] == before[m]);
                    } else if m > pos {
                        assert(all@[m] == before[m - 1]);
                    }
                }
                assert forall|k: Seq<int>| has_key(before, k) implies has_key(all@, k) by {
                    let m = choose|m: int| 0 <= m < before.len() && #[trigger] before[m].key() == k;
                    if m < pos {
                        assert(all@[m] == before[m]);
                    } else {
                        assert(all@[m + 1] == before[m]);
                    }
                }
                assert(has_key(all@, pk));
            } else {
                assert(has_key(before, pk));
            }
            assert forall|k: Seq<int>| has_key(all@, k) <==> (has_key(old(all)@, k) || has_key(post, k)) by {
                if k == pk {
                    assert(has_key(all@, k));
                    assert(has_key(post, k));
                }
            }
        }
        i = i + 1;
    }
    assert(index@.take(index@.len() as int) =~= index@);
}

/// Every path whose entries differ between `old` and `new`, in path order, with both entries.
pub fn diff_entries(old: &[StrictEntry], new: &[StrictEntry]) -> (res: Vec<PathDelta>)
    ensures
        is_diff(res@, old@, new@),
{
    let old_map = entries_by_path(old);
    let new_map = entries_by_path(new);
    let mut all: Vec<RepoPath> = Vec::new();
    let ghost a0 = all@;
    collect_paths(&mut all, &old_map);
    let ghost a1 = all@;
    collect_paths(&mut all, &new_map);
    assert forall|k: Seq<int>| has_key(all@, k) <==> (has_key(old_map@, k) || has_key(new_map@, k)) by {
        assert(!has_key(a0, k));
        assert(has_key(a1, k) <==> (has_key(a0, k) || has_key(old_map@, k)));
        assert(has_key(all@, k) <==> (has_key(a1, k) || has_key(new_map@, k)));
    }
    let mut res: Vec<PathDelta> = Vec::new();
    let mut j: usize = 0;
    while j < all.len()
        invariant
            j <= all.len(),
            is_path_index(old_map@, old@),
            is_path_index(new_map@, new@),
            strictly_sorted(keys(all@)),
            forall|k: Seq<int>| has_key(all@, k) <==> (has_key(old_map@, k) || has_key(new_map@, k)),
            strictly_sorted(keys(res@)),
            forall|r: int, q: int| 0 <= r < res@.len() && j <= q < all@.len() ==> lex_lt(#[trigger] res@[r].key(), #[trigger] all@[q].key()),
            forall|i: int| 0 <= i < res@.len() ==> delta_matches(#[trigger] res@[i], old@, new@),
            forall|q: int| 0 <= q < j && #[trigger] path_changed(old@, new@, all@[q]@) ==> has_key(res@, all@[q].key()),
        decreases all.len() - j,
    {
        let path = &all[j];
        let ghost p = path@;
        let o = find_in_index(&old_map, path);
        let n = find_in_index(&new_map, path);
        let old_entry: Option<&StrictEntry> = match o {
            Some(i) => Some(&old_map[i]),
            None => None,
        };
        let new_entry: Option<&StrictEntry> = match n {
            Some(i) => Some(&new_map[i]),
            None => None,
        };
        proof {
            match o {
                Some(i) => {
                    assert(Some(old_map@[i as int]@) == lookup(old@, old_map@[i as int].path@));
                }
                None => {
                    if lookup(old@, p) is Some {
                        assert(has_key(old_map@, byte_key(p)));
                    }
                }
            }
            match n {
                Some(i) => {
                    assert(Some(new_map@[i as int]@) == lookup(new@, new_map@[i as int].path@));
                }
                None => {
                    if lookup(new@, p) is Some {
                        assert(has_key(new_map@, byte_key(p)));
                    }
                }
            }
        }
        let same = same_entry(old_entry, new_entry);
        if !same {
            let old_copy: Option<StrictEntry> = match old_entry {
                Some(e) => Some(e.duplicate()),
                None => None,
            };
            let new_copy: Option<StrictEntry> = match new_entry {
                Some(e) => Some(e.duplicate()),
                None => None,
            };
            let d = PathDelta { path: path.duplicate(), old: old_copy, new: new_copy };
            let ghost before = res@;
            res.push(d);
            proof {
                assert(d.key() == all@[j as int].key());
                assert forall|a: int, b: int| 0 <= a < b < res@.len() implies #[trigger] lex_lt(keys(res@)[a], keys(res@)[b]) by {
                    if b < before.len() {
                        assert(lex_lt(keys(before)[a], keys(before)[b]));
                    } else {
                        assert(res@[a] == before[a]);
                    }
                }
                assert forall|r: int, q: int| 0 <= r < res@.len() && j + 1 <= q < all@.len() implies lex_lt(#[trigger] res@[r].key(), #[trigger] all@[q].key()) by {
                    if r < before.len() {
                        assert(res@[r] == before[r]);
                    } else {
                        assert(lex_lt(keys(all@)[j as int], keys(all@)[q]));
                    }
                }
                assert(has_key(res@, all@[j as int].key())) by {
                    assert(res@[before.len() as int] == d);
                }
                assert forall|q: int| 0 <= q < j + 1 && #[trigger] path_changed(old@, new@, all@[q]@) implies has_key(res@, all@[q].key()) by {
                    if q < j {
                        let m = choose|m: int| 0 <= m < before.len() && #[trigger] before[m].key() == all@[q].key();
                        assert(res@[m] == before[m]);
                    }
                }
            }
        } else {
            proof {
                assert forall|q: int| 0 <= q < j + 1 && #[trigger] path_changed(old@, new@, all@[q]@) implies has_key(res@, all@[q].key()) by {
                    if q == j {
                        assert(!path_changed(old@, new@, p));
                    }
                }
            }
        }
        j = j + 1;
    }
    proof {
        assert forall|p: Seq<u8>| #[trigger] path_changed(old@, new@, p) implies has_key(res@, byte_key(p)) by {
            if lookup(old@, p) is Some {
                assert(has_key(old_map@, byte_key(p)));
            } else {
                assert(lookup(new@, p) is Some);
                assert(has_key(new_map@, byte_key(p)));
            }
            assert(has_key(all@, byte_key(p)));
            let q = choose|q: int| 0 <= q < all@.len() && #[trigger] all@[q].key() == byte_key(p);
            lemma_byte_key_injective(all@[q]@, p);
        }
    }
    res
}

/// The paths of a list of entries.
pub open spec fn entry_paths(entries: Seq<StrictEntry>) -> Seq<Seq<u8>> {
    entries.map_values(|e: StrictEntry| e.path@)
}

/// A path found in a list of entries is one of its paths.
proof fn lemma_lookup_listed(entries: Seq<StrictEntry>, p: Seq<u8>)
    ensures
        lookup(entries, p) is Some ==> entry_paths(entries).contains(p),
    decreases entries.len(),
{
    if entries.len() > 0 {
        let d = entries.drop_last();
        lemma_lookup_listed(d, p);
        if entries.last().path@ == p {
            assert(entry_paths(entries)[entries.len() - 1] == p);
        } else if lookup(d, p) is Some {
            let i = choose|i: int| 0 <= i < entry_paths(d).len() && entry_paths(d)[i] == p;
            assert(entry_paths(entries)[i] == entry_paths(d)[i]);
        }
    }
}

/// Only finitely many paths change between two manifests: each is a path of one of them.
pub proof fn law_changed_paths_finite(old: Seq<StrictEntry>, new: Seq<StrictEntry>)
    ensures
        changed_path_set(old, new).finite(),
        changed_path_set(old, new).subset_of((entry_paths(old) + entry_paths(new)).to_set()),
{
    let all = entry_paths(old) + entry_paths(new);
    assert forall|p: Seq<u8>| changed_path_set(old, new).contains(p) implies all.to_set().contains(p) by {
        lemma_lookup_listed(old, p);
        lemma_lookup_listed(new, p);
        if lookup(old, p) is Some {
            let i = choose|i: int| 0 <= i < entry_paths(old).len() && entry_paths(old)[i] == p;
            assert(all[i] == p);
        } else {
            let i = choose|i: int| 0 <= i < entry_paths(new).len() && entry_paths(new)[i] == p;
            assert(all[entry_paths(old).len() + i] == p);
        }
    }
    vstd::seq_lib::seq_to_set_is_finite(all);
    vstd::set_lib::lemma_set_subset_finite(all.to_set(), changed_path_set(old, new));
}

/// The changed paths of a sorted, duplicate-free diff are exactly its paths.
proof fn lemma_diff_paths(res: Seq<PathDelta>, old: Seq<StrictEntry>, new: Seq<StrictEntry>)
    requires
        is_diff(res, old, new),
    ensures
        res.map_values(|d: PathDelta| d.path@).no_duplicates(),
        res.map_values(|d: PathDelta| d.path@).to_set() == changed_path_set(old, new),
        changed_path_set(old, new).finite(),
        changed_path_set(old, new).len() == res.len(),
{
    let ps = res.map_values(|d: PathDelta| d.path@);
    assert forall|i: int, j: int| 0 <= i < ps.len() && 0 <= j < ps.len() && i != j implies ps[i] != ps[j] by {
        if ps[i] == ps[j] {
            lemma_strictly_sorted_keys_unique(res, i, j);
        }
    }
    assert forall|p: Seq<u8>| ps.to_set().contains(p) <==> changed_path_set(old, new).contains(p) by {
        if ps.to_set().contains(p) {
            let i = choose|i: int| 0 <= i < ps.len() && ps[i] == p;
            assert(delta_matches(res[i], old, new));
        }
        if changed_path_set(old, new).contains(p) {
            assert(path_changed(old, new, p));
            let i = choose|i: int| 0 <= i < res.len() && #[trigger] res[i].key() == byte_key(p);
            lemma_byte_key_injective(res[i].path@, p);
            assert(ps[i] == p);
        }
    }
    assert(ps.to_set() =~= changed_path_set(old, new));
    ps.unique_seq_to_set();
}

/// The changed paths between two manifests, in path order.
pub fn changed_paths(old: &[StrictEntry], new: &[StrictEntry]) -> (res: Vec<RepoPath>)
    ensures
        strictly_sorted(keys(res@)),
        forall|p: Seq<u8>| has_key(res@, byte_key(p)) <==> #[trigger] path_changed(old@, new@, p),
{
    let diff = diff_entries(old, new);
    let mut res: Vec<RepoPath> = Vec::new();
    let mut i: usize = 0;
    while i < diff.len()
        invariant
            i <= diff.len(),
            is_diff(diff@, old@, new@),
            res@.len() == i,
            forall|k: int| 0 <= k < i ==> (#[trigger] res@[k])@ == diff@[k].path@,
        decreases diff.len() - i,
    {
        res.push(diff[i].path.duplicate());
        i = i + 1;
    }
    proof {
        assert forall|a: int, b: int| 0 <= a < b < res@.len() implies #[trigger] lex_lt(keys(res@)[a], keys(res@)[b]) by {
            assert(lex_lt(keys(diff@)[a], keys(diff@)[b]));
        }
        assert forall|p: Seq<u8>| has_key(res@, byte_key(p)) <==> #[trigger] path_changed(old@, new@, p) by {
            if has_key(res@, byte_key(p)) {
                let k = choose|k: int| 0 <= k < res@.len() && #[trigger] res@[k].key() == byte_key(p);
                lemma_byte_key_injective(res@[k]@, p);
                assert(delta_matches(diff@[k], old@, new@));
            }
            if path_changed(old@, new@, p) {
                let k = choose|k: int| 0 <= k < diff@.len() && #[trigger] diff@[k].key() == byte_key(p);
                assert(res@[k].key() == diff@[k].key());
            }
        }
    }
    res
}

/// The number of changed paths between two manifests.
pub fn changed_path_count(old: &[StrictEntry], new: &[StrictEntry]) -> (n: usize)
    ensures
        n == changed_path_set(old@, new@).len(),
{
    let diff = diff_entries(old, new);
    proof { lemma_diff_paths(diff@, old@, new@); }
    diff.len()
}

/// Comparing a manifest with itself finds no changed path.
pub proof fn law_no_change_against_itself(entries: Seq<StrictEntry>)
    ensures
        changed_path_set(entries, entries) == Set::<Seq<u8>>::empty(),
{
    assert(changed_path_set(entries, entries) =~= Set::<Seq<u8>>::empty());
}

/// A path changed from `a` to `b` exactly when it changed from `b` to `a`.
pub proof fn law_change_is_symmetric(a: Seq<StrictEntry>, b: Seq<StrictEntry>)
    ensures
        changed_path_set(a, b) == changed_path_set(b, a),
{
    assert(changed_path_set(a, b) =~= changed_path_set(b, a));
}

} // verus!
