//! Lexicographic order on integer sequences, used to sort paths, names and keys.
use vstd::prelude::*;
use vstd::multiset::Multiset;
use vstd::seq_lib::{to_multiset_contains, to_multiset_insert, to_multiset_remove};

verus! {

/// Strict lexicographic order: `a` sorts before `b`.
pub open spec fn lex_lt(a: Seq<int>, b: Seq<int>) -> bool
    decreases a.len(),
{
    if a.len() == 0 {
        b.len() > 0
    } else if b.len() == 0 {
        false
    } else if a[0] < b[0] {
        true
    } else if a[0] > b[0] {
        false
    } else {
        lex_lt(a.drop_first(), b.drop_first())
    }
}

pub proof fn lemma_lex_irreflexive(a: Seq<int>)
    ensures
        !lex_lt(a, a),
    decreases a.len(),
{
    if a.len() > 0 {
        lemma_lex_irreflexive(a.drop_first());
    }
}

pub proof fn lemma_lex_asymmetric(a: Seq<int>, b: Seq<int>)
    ensures
        lex_lt(a, b) ==> !lex_lt(b, a),
    decreases a.len(),
{
    if a.len() > 0 && b.len() > 0 && a[0] == b[0] {
        lemma_lex_asymmetric(a.drop_first(), b.drop_first());
    }
}

pub proof fn lemma_lex_transitive(a: Seq<int>, b: Seq<int>, c: Seq<int>)
    requires
        lex_lt(a, b),
        lex_lt(b, c),
    ensures
        lex_lt(a, c),
    decreases a.len(),
{
    if a.len() > 0 && b.len() > 0 && c.len() > 0 && a[0] == b[0] && b[0] == c[0] {
        lemma_lex_transitive(a.drop_first(), b.drop_first(), c.drop_first());
    }
}

pub proof fn lemma_lex_total(a: Seq<int>, b: Seq<int>)
    ensures
        a == b || lex_lt(a, b) || lex_lt(b, a),
    decreases a.len(),
{
    if a.len() > 0 && b.len() > 0 && a[0] == b[0] {
        lemma_lex_total(a.drop_first(), b.drop_first());
        if a.drop_first() == b.drop_first() {
            assert(a =~= seq![a[0]] + a.drop_first());
            assert(b =~= seq![b[0]] + b.drop_first());
        }
    } else if a.len() == 0 && b.len() == 0 {
        assert(a =~= b);
    }
}

/// Every later element sorts strictly after every earlier one.
pub open spec fn strictly_sorted(s: Seq<Seq<int>>) -> bool {
    forall|i: int, j: int| 0 <= i < j < s.len() ==> #[trigger] lex_lt(s[i], s[j])
}

/// Later elements never sort before earlier ones.
pub open spec fn sorted(s: Seq<Seq<int>>) -> bool {
    forall|i: int, j: int| 0 <= i < j < s.len() ==> !#[trigger] lex_lt(s[j], s[i])
}

/// Integer view of a byte string.
pub open spec fn byte_key(s: Seq<u8>) -> Seq<int> {
    s.map_values(|b: u8| b as int)
}

/// Integer view of a character string (code points).
pub open spec fn char_key(s: Seq<char>) -> Seq<int> {
    s.map_values(|c: char| c as int)
}

/// Three-way comparison result: negative, zero or positive.
pub open spec fn sign_matches(r: i8, a: Seq<int>, b: Seq<int>) -> bool {
    &&& (r < 0 <==> lex_lt(a, b))
    &&& (r == 0 <==> a == b)
    &&& (r > 0 <==> lex_lt(b, a))
}

/// Lexicographic three-way comparison of byte strings.
pub fn compare_bytes(a: &[u8], b: &[u8]) -> (r: i8)
    ensures
        sign_matches(r, byte_key(a@), byte_key(b@)),
{
    let ghost ka = byte_key(a@);
    let ghost kb = byte_key(b@);
    let mut i: usize = 0;
    while i < a.len() && i < b.len()
        invariant
            i <= a.len(),
            i <= b.len(),
            ka == byte_key(a@),
            kb == byte_key(b@),
            forall|k: int| 0 <= k < i ==> ka[k] == kb[k],
        decreases a.len() - i,
    {
        assert(ka[i as int] == a@[i as int] as int);
        assert(kb[i as int] == b@[i as int] as int);
        if a[i] < b[i] {
            proof { lemma_lex_first_difference(ka, kb, i as int); }
            return -1;
        }
        if a[i] > b[i] {
            proof { lemma_lex_first_difference(kb, ka, i as int); }
            return 1;
        }
        i = i + 1;
    }
    proof { lemma_lex_common_prefix_end(ka, kb, i as int); }
    if a.len() < b.len() {
        -1
    } else if a.len() > b.len() {
        1
    } else {
        0
    }
}

/// The first position where two sequences differ decides their order.
pub proof fn lemma_lex_first_difference(a: Seq<int>, b: Seq<int>, k: int)
    requires
        0 <= k < a.len(),
        k < b.len(),
        forall|i: int| 0 <= i < k ==> a[i] == b[i],
        a[k] < b[k],
    ensures
        lex_lt(a, b),
        !lex_lt(b, a),
        a != b,
        b != a,
{
    lemma_lex_prefix(a, b, k);
    lemma_lex_prefix(b, a, k);
}

/// When one sequence is a prefix of the other, the shorter sorts first.
pub proof fn lemma_lex_common_prefix_end(a: Seq<int>, b: Seq<int>, k: int)
    requires
        0 <= k <= a.len(),
        k <= b.len(),
        k == a.len() || k == b.len(),
        forall|i: int| 0 <= i < k ==> a[i] == b[i],
    ensures
        a.len() < b.len() ==> lex_lt(a, b) && !lex_lt(b, a) && a != b,
        a.len() > b.len() ==> lex_lt(b, a) && !lex_lt(a, b) && a != b,
        a.len() == b.len() ==> a == b && !lex_lt(a, b),
{
    lemma_lex_prefix(a, b, k);
    lemma_lex_prefix(b, a, k);
    if a.len() == b.len() {
        assert(a =~= b);
        lemma_lex_irreflexive(a);
    }
}

/// Comparing after a common prefix of length `k` is comparing the rests.
pub proof fn lemma_lex_prefix(a: Seq<int>, b: Seq<int>, k: int)
    requires
        0 <= k <= a.len(),
        k <= b.len(),
        forall|i: int| 0 <= i < k ==> a[i] == b[i],
    ensures
        lex_lt(a, b) == lex_lt(a.subrange(k, a.len() as int), b.subrange(k, b.len() as int)),
    decreases k,
{
    if k > 0 {
        lemma_lex_prefix(a.drop_first(), b.drop_first(), k - 1);
        assert(a.drop_first().subrange(k - 1, a.len() - 1) =~= a.subrange(k, a.len() as int));
        assert(b.drop_first().subrange(k - 1, b.len() - 1) =~= b.subrange(k, b.len() as int));
    } else {
        assert(a.subrange(0, a.len() as int) =~= a);
        assert(b.subrange(0, b.len() as int) =~= b);
    }
}

/// Lexicographic three-way comparison of character strings (code-point order).
pub fn compare_chars(a: &[char], b: &[char]) -> (r: i8)
    ensures
        sign_matches(r, char_key(a@), char_key(b@)),
{
    let ghost ka = char_key(a@);
    let ghost kb = char_key(b@);
    let mut i: usize = 0;
    while i < a.len() && i < b.len()
        invariant
            i <= a.len(),
            i <= b.len(),
            ka == char_key(a@),
            kb == char_key(b@),
            forall|k: int| 0 <= k < i ==> ka[k] == kb[k],
        decreases a.len() - i,
    {
        assert(ka[i as int] == a@[i as int] as int);
        assert(kb[i as int] == b@[i as int] as int);
        if a[i] < b[i] {
            proof { lemma_lex_first_difference(ka, kb, i as int); }
            return -1;
        }
        if a[i] > b[i] {
            proof { lemma_lex_first_difference(kb, ka, i as int); }
            return 1;
        }
        i = i + 1;
    }
    proof { lemma_lex_common_prefix_end(ka, kb, i as int); }
    if a.len() < b.len() {
        -1
    } else if a.len() > b.len() {
        1
    } else {
        0
    }
}

/// A value with a lexicographic sort key.
pub trait SortKey: Sized {
    spec fn key(&self) -> Seq<int>;

    fn compare_key(&self, other: &Self) -> (r: i8)
        ensures
            sign_matches(r, self.key(), other.key()),
    ;
}

/// The sort keys of a sequence of values.
pub open spec fn keys<T: SortKey>(s: Seq<T>) -> Seq<Seq<int>> {
    s.map_values(|t: T| t.key())
}

/// Some element of `s` has key `k`.
pub open spec fn has_key<T: SortKey>(s: Seq<T>, k: Seq<int>) -> bool {
    exists|i: int| 0 <= i < s.len() && #[trigger] s[i].key() == k
}

pub proof fn lemma_strictly_sorted_keys_unique<T: SortKey>(s: Seq<T>, i: int, j: int)
    requires
        strictly_sorted(keys(s)),
        0 <= i < s.len(),
        0 <= j < s.len(),
        s[i].key() == s[j].key(),
    ensures
        i == j,
{
    if i < j {
        assert(lex_lt(keys(s)[i], keys(s)[j]));
        lemma_lex_irreflexive(s[i].key());
    } else if j < i {
        assert(lex_lt(keys(s)[j], keys(s)[i]));
        lemma_lex_irreflexive(s[i].key());
    }
}

/// Inserts `x` into a strictly sorted vector unless an element with the same key is there.
pub fn insert_sorted_unique<T: SortKey>(v: &mut Vec<T>, x: T) -> (inserted: bool)
    requires
        strictly_sorted(keys(old(v)@)),
    ensures
        strictly_sorted(keys(final(v)@)),
        inserted == !has_key(old(v)@, x.key()),
        !inserted ==> final(v)@ == old(v)@,
        inserted ==> exists|pos: int| 0 <= pos <= old(v)@.len() && final(v)@ == old(v)@.insert(pos, x),
{
    let mut pos: usize = 0;
    let mut stop = false;
    while !stop && pos < v.len()
        invariant
            pos <= v.len(),
            v@ == old(v)@,
            strictly_sorted(keys(v@)),
            forall|k: int| 0 <= k < pos ==> lex_lt(#[trigger] v@[k].key(), x.key()),
            stop ==> pos < v.len() && lex_lt(x.key(), v@[pos as int].key()),
        decreases v.len() - pos + (if stop { 0int } else { 1int }),
    {
        let r = v[pos].compare_key(&x);
        if r == 0 {
            assert(has_key(old(v)@, x.key()));
            return false;
        }
        if r > 0 {
            stop = true;
        } else {
            pos = pos + 1;
        }
    }
    let ghost before = v@;
    proof {
        // every element at or after pos sorts after x
        assert forall|k: int| pos <= k < before.len() implies lex_lt(x.key(), #[trigger] before[k].key()) by {
            if k > pos {
                assert(lex_lt(keys(before)[pos as int], keys(before)[k]));
                lemma_lex_transitive(x.key(), before[pos as int].key(), before[k].key());
            }
        }
        assert(!has_key(before, x.key())) by {
            if has_key(before, x.key()) {
                let k = choose|k: int| 0 <= k < before.len() && #[trigger] before[k].key() == x.key();
                if k < pos {
                    lemma_lex_irreflexive(x.key());
                } else {
                    lemma_lex_irreflexive(x.key());
                }
            }
        }
    }
    v.insert(pos, x);
    proof {
        let after = v@;
        assert(after == before.insert(pos as int, x));
        assert forall|i: int, j: int| 0 <= i < j < after.len() implies #[trigger] lex_lt(keys(after)[i], keys(after)[j]) by {
            if j < pos {
                assert(lex_lt(keys(before)[i], keys(before)[j]));
            } else if j == pos {
                assert(after[j] == x);
                assert(after[i] == before[i]);
            } else if i == pos {
                assert(after[j] == before[j - 1]);
            } else if i < pos {
                assert(after[j] == before[j - 1]);
                assert(lex_lt(keys(before)[i], keys(before)[j - 1]));
            } else {
                assert(lex_lt(keys(before)[i - 1], keys(before)[j - 1]));
            }
        }
    }
    true
}

/// The test that keeps the elements with key `k`.
pub open spec fn key_is<T: SortKey>(k: Seq<int>) -> spec_fn(T) -> bool {
    |t: T| t.key() == k
}

/// Filtering keeps nothing of a sequence none of whose elements pass.
proof fn lemma_filter_none<T>(s: Seq<T>, p: spec_fn(T) -> bool)
    requires
        forall|i: int| 0 <= i < s.len() ==> !p(#[trigger] s[i]),
    ensures
        s.filter(p) == Seq::<T>::empty(),
    decreases s.len(),
{
    reveal(Seq::filter);
    if s.len() > 0 {
        lemma_filter_none(s.drop_last(), p);
        assert(!p(s[s.len() - 1]));
    }
    assert(s.filter(p) =~= Seq::<T>::empty());
}

/// Inserts `x` after every element whose key does not sort after it (stable insertion).
pub fn insert_sorted_stable<T: SortKey>(v: &mut Vec<T>, x: T)
    requires
        sorted(keys(old(v)@)),
    ensures
        sorted(keys(final(v)@)),
        final(v)@.to_multiset() == old(v)@.to_multiset().insert(x),
        final(v)@.len() == old(v)@.len() + 1,
        forall|k: Seq<int>| #[trigger] final(v)@.filter(key_is(k)) == (if x.key() == k {
            old(v)@.filter(key_is(k)).push(x)
        } else {
            old(v)@.filter(key_is(k))
        }),
{
    let mut pos: usize = v.len();
    let mut stop = false;
    while !stop && pos > 0
        invariant
            pos <= v.len(),
            v@ == old(v)@,
            sorted(keys(v@)),
            forall|k: int| pos <= k < v@.len() ==> lex_lt(x.key(), #[trigger] v@[k].key()),
            stop ==> pos > 0 && !lex_lt(x.key(), v@[pos - 1].key()),
        decreases pos + (if stop { 0int } else { 1int }),
    {
        let r = v[pos - 1].compare_key(&x);
        if r <= 0 {
            proof { lemma_lex_asymmetric(v@[pos - 1].key(), x.key()); }
            stop = true;
        } else {
            proof { lemma_lex_asymmetric(x.key(), v@[pos - 1].key()); }
            pos = pos - 1;
        }
    }
    let ghost before = v@;
    proof {
        assert forall|k: int| 0 <= k < pos implies !lex_lt(x.key(), #[trigger] before[k].key()) by {
            if k < pos - 1 {
                assert(!lex_lt(keys(before)[pos - 1], keys(before)[k]));
                assert(stop);
                lemma_lex_total(before[k].key(), before[pos - 1].key());
                if lex_lt(x.key(), before[k].key()) {
                    if before[k].key() == before[pos - 1].key() {
                    } else {
                        lemma_lex_transitive(x.key(), before[k].key(), before[pos - 1].key());
                    }
                    lemma_lex_asymmetric(x.key(), before[pos - 1].key());
                }
            } else {
                assert(stop);
            }
        }
    }
    v.insert(pos, x);
    proof {
        let after = v@;
        assert(after == before.insert(pos as int, x));
        to_multiset_insert(before, pos as int, x);
        let front = before.subrange(0, pos as int);
        let back = before.subrange(pos as int, before.len() as int);
        assert(before =~= front + back);
        assert(after =~= front + seq![x] + back);
        assert forall|k: Seq<int>| #[trigger] after.filter(key_is(k)) == (if x.key() == k {
            before.filter(key_is(k)).push(x)
        } else {
            before.filter(key_is(k))
        }) by {
            let p = key_is::<T>(k);
            Seq::filter_distributes_over_add(front + seq![x], back, p);
            Seq::filter_distributes_over_add(front, seq![x], p);
            Seq::filter_distributes_over_add(front, back, p);
            Seq::<T>::empty().lemma_filter_push(x, p);
            assert(Seq::<T>::empty().push(x) =~= seq![x]);
            assert(Seq::<T>::empty().filter(p) =~= Seq::<T>::empty()) by {
                reveal(Seq::filter);
            }
            if x.key() == k {
                assert forall|i: int| 0 <= i < back.len() implies !p(#[trigger] back[i]) by {
                    assert(back[i] == before[pos + i]);
                    lemma_lex_irreflexive(x.key());
                }
                lemma_filter_none(back, p);
                assert(front.filter(p) + back.filter(p) =~= front.filter(p));
                assert(front.filter(p) + seq![x] =~= front.filter(p).push(x));
                assert(front.filter(p) + seq![x] + Seq::<T>::empty() =~= front.filter(p) + seq![x]);
            } else {
                assert(front.filter(p) + Seq::<T>::empty() =~= front.filter(p));
            }
        }
        assert forall|i: int, j: int| 0 <= i < j < after.len() implies !#[trigger] lex_lt(keys(after)[j], keys(after)[i]) by {
            if j < pos {
                assert(!lex_lt(keys(before)[j], keys(before)[i]));
            } else if j == pos {
                assert(after[i] == before[i]);
            } else if i == pos {
                assert(after[j] == before[j - 1]);
                lemma_lex_asymmetric(x.key(), before[j - 1].key());
            } else if i < pos {
                assert(!lex_lt(keys(before)[j - 1], keys(before)[i]));
            } else {
                assert(!lex_lt(keys(before)[j - 1], keys(before)[i - 1]));
            }
        }
    }
}

/// Sorts by key, keeping elements with equal keys in the order they came.
pub fn sort_stable<T: SortKey>(v: Vec<T>) -> (res: Vec<T>)
    ensures
        sorted(keys(res@)),
        res@.to_multiset() == v@.to_multiset(),
        res@.len() == v@.len(),
        forall|k: Seq<int>| #[trigger] res@.filter(key_is(k)) == v@.filter(key_is(k)),
{
    broadcast use vstd::seq_lib::group_to_multiset_ensures, vstd::multiset::group_multiset_axioms;

    let mut res: Vec<T> = Vec::new();
    let mut rest = v;
    let ghost orig = rest@;
    proof {
        assert(res@.to_multiset() =~= Multiset::empty());
    }
    while rest.len() > 0
        invariant
            sorted(keys(res@)),
            res@.to_multiset().add(rest@.to_multiset()) == orig.to_multiset(),
            res@.len() + rest@.len() == orig.len(),
            forall|k: Seq<int>| #[trigger] orig.filter(key_is(k)) == res@.filter(key_is(k)) + rest@.filter(key_is(k)),
        decreases rest.len(),
    {
        let ghost before_rest = rest@;
        let ghost before_res = res@;
        let x = rest.remove(0);
        proof {
            assert(rest@ == before_rest.remove(0));
            to_multiset_remove(before_rest, 0);
            assert(before_rest.contains(x));
        }
        insert_sorted_stable(&mut res, x);
        proof {
            assert(before_rest.contains(before_rest[0]));
            to_multiset_contains(before_rest, before_rest[0]);
            assert(res@.to_multiset().add(rest@.to_multiset()) =~= before_res.to_multiset().add(
                before_rest.to_multiset(),
            ));
            assert(before_rest =~= seq![x] + rest@);
            assert forall|k: Seq<int>| #[trigger] orig.filter(key_is(k)) == res@.filter(key_is(k)) + rest@.filter(key_is(k)) by {
                let p = key_is::<T>(k);
                rest@.lemma_filter_prepend(x, p);
                assert(orig.filter(p) == before_res.filter(p) + before_rest.filter(p));
                if x.key() == k {
                    assert(before_res.filter(p).push(x) + rest@.filter(p) =~= before_res.filter(p) + (seq![x] + rest@.filter(p)));
                } else {
                    assert(Seq::<T>::empty() + rest@.filter(p) =~= rest@.filter(p));
                }
            }
        }
    }
    proof {
        assert(rest@.to_multiset() =~= Multiset::empty());
        assert forall|k: Seq<int>| #[trigger] res@.filter(key_is(k)) == orig.filter(key_is(k)) by {
            assert(rest@.filter(key_is(k)) =~= Seq::<T>::empty()) by {
                reveal(Seq::filter);
            }
            assert(res@.filter(key_is(k)) + Seq::<T>::empty() =~= res@.filter(key_is(k)));
        }
    }
    res
}

/// Sorts by key and keeps one element per key.
pub fn sort_unique<T: SortKey>(v: Vec<T>) -> (res: Vec<T>)
    ensures
        strictly_sorted(keys(res@)),
        forall|k: Seq<int>| has_key(res@, k) <==> has_key(v@, k),
        forall|i: int| 0 <= i < res@.len() ==> v@.contains(#[trigger] res@[i]),
{
    let ghost orig = v@;
    let mut res: Vec<T> = Vec::new();
    let mut rest = v;
    let ghost mut i: int = 0;
    while rest.len() > 0
        invariant
            0 <= i <= orig.len(),
            rest@ == orig.skip(i),
            strictly_sorted(keys(res@)),
            forall|k: Seq<int>| has_key(res@, k) <==> has_key(orig.take(i), k),
            forall|j: int| 0 <= j < res@.len() ==> orig.contains(#[trigger] res@[j]),
        decreases rest.len(),
    {
        let ghost before_res = res@;
        let x = rest.remove(0);
        proof {
            assert(x == orig[i]);
        }
        let inserted = insert_sorted_unique(&mut res, x);
        proof {
            let ni = i + 1;
            assert(orig.take(ni) =~= orig.take(i).push(x));
            assert forall|k: Seq<int>| has_key(res@, k) <==> has_key(orig.take(ni), k) by {
                if has_key(orig.take(ni), k) {
                    let j = choose|j: int| 0 <= j < orig.take(ni).len() && #[trigger] orig.take(ni)[j].key() == k;
                    if j < i {
                        assert(orig.take(i)[j] == orig.take(ni)[j]);
                        assert(has_key(orig.take(i), k));
                        assert(has_key(before_res, k));
                        let m = choose|m: int| 0 <= m < before_res.len() && #[trigger] before_res[m].key() == k;
                        if inserted {
                            let pos = choose|pos: int| 0 <= pos <= before_res.len() && res@ == before_res.insert(pos, x);
                            if m < pos {
                                assert(res@[m] == before_res[m]);
                            } else {
                                assert(res@[m + 1] == before_res[m]);
                            }
                        }
                    } else {
                        if inserted {
                            let pos = choose|pos: int| 0 <= pos <= before_res.len() && res@ == before_res.insert(pos, x);
                            assert(res@[pos] == x);
                        }
                    }
                }
                if has_key(res@, k) {
                    let m = choose|m: int| 0 <= m < res@.len() && #[trigger] res@[m].key() == k;
                    if inserted {
                        let pos = choose|pos: int| 0 <= pos <= before_res.len() && res@ == before_res.insert(pos, x);
                        if m < pos {
                            assert(res@[m] == before_res[m]);
                            assert(has_key(before_res, k));
                        } else if m == pos {
                            assert(orig.take(ni)[i] == x);
                        } else {
                            assert(res@[m] == before_res[m - 1]);
                            assert(has_key(before_res, k));
                        }
                    } else {
                        assert(has_key(before_res, k));
                    }
                    if has_key(orig.take(i), k) {
                        let j = choose|j: int| 0 <= j < orig.take(i).len() && #[trigger] orig.take(i)[j].key() == k;
                        assert(orig.take(ni)[j] == orig.take(i)[j]);
                    } else {
                        assert(orig.take(ni)[i] == x);
                    }
                }
            }
            assert forall|j: int| 0 <= j < res@.len() implies orig.contains(#[trigger] res@[j]) by {
                if inserted {
                    let pos = choose|pos: int| 0 <= pos <= before_res.len() && res@ == before_res.insert(pos, x);
                    if j < pos {
                        assert(res@[j] == before_res[j]);
                    } else if j == pos {
                        assert(orig[i] == x);
                    } else {
                        assert(res@[j] == before_res[j - 1]);
                    }
                } else {
                    assert(res@[j] == before_res[j]);
                }
            }
            i = ni;
            assert(rest@ =~= orig.skip(i));
        }
    }
    proof {
        assert(orig.take(i) =~= orig);
    }
    res
}

/// Inserts `x` into a strictly sorted vector, replacing the element with the same key if any.
pub fn upsert_sorted<T: SortKey>(v: &mut Vec<T>, x: T)
    requires
        strictly_sorted(keys(old(v)@)),
    ensures
        strictly_sorted(keys(final(v)@)),
        has_key(old(v)@, x.key()) ==> exists|pos: int|
            0 <= pos < old(v)@.len() && #[trigger] old(v)@[pos].key() == x.key() && final(v)@
                == old(v)@.update(pos, x),
        !has_key(old(v)@, x.key()) ==> exists|pos: int|
            0 <= pos <= old(v)@.len() && final(v)@ == old(v)@.insert(pos, x),
{
    let mut pos: usize = 0;
    let mut stop = false;
    while !stop && pos < v.len()
        invariant
            pos <= v.len(),
            v@ == old(v)@,
            strictly_sorted(keys(v@)),
            forall|k: int| 0 <= k < pos ==> lex_lt(#[trigger] v@[k].key(), x.key()),
            stop ==> pos < v.len() && lex_lt(x.key(), v@[pos as int].key()),
        decreases v.len() - pos + (if stop { 0int } else { 1int }),
    {
        let r = v[pos].compare_key(&x);
        if r == 0 {
            let ghost before = v@;
            v.set(pos, x);
            proof {
                assert(v@ == before.update(pos as int, x));
                assert(before[pos as int].key() == x.key());
                assert forall|i: int, j: int| 0 <= i < j < v@.len() implies #[trigger] lex_lt(keys(v@)[i], keys(v@)[j]) by {
                    assert(lex_lt(keys(before)[i], keys(before)[j]));
                }
            }
            return;
        }
        if r > 0 {
            stop = true;
        } else {
            pos = pos + 1;
        }
    }
    let ghost before = v@;
    proof {
        assert forall|k: int| pos <= k < before.len() implies lex_lt(x.key(), #[trigger] before[k].key()) by {
            if k > pos {
                assert(lex_lt(keys(before)[pos as int], keys(before)[k]));
                lemma_lex_transitive(x.key(), before[pos as int].key(), before[k].key());
            }
        }
        assert(!has_key(before, x.key())) by {
            if has_key(before, x.key()) {
                let k = choose|k: int| 0 <= k < before.len() && #[trigger] before[k].key() == x.key();
                lemma_lex_irreflexive(x.key());
            }
        }
    }
    v.insert(pos, x);
    proof {
        let after = v@;
        assert(after == before.insert(pos as int, x));
        assert forall|i: int, j: int| 0 <= i < j < after.len() implies #[trigger] lex_lt(keys(after)[i], keys(after)[j]) by {
            if j < pos {
                assert(lex_lt(keys(before)[i], keys(before)[j]));
            } else if j == pos {
                assert(after[j] == x);
                assert(after[i] == before[i]);
            } else if i == pos {
                assert(after[j] == before[j - 1]);
            } else if i < pos {
                assert(after[j] == before[j - 1]);
                assert(lex_lt(keys(before)[i], keys(before)[j - 1]));
            } else {
                assert(lex_lt(keys(before)[i - 1], keys(before)[j - 1]));
            }
        }
    }
}

impl SortKey for String {
    open spec fn key(&self) -> Seq<int> {
        char_key(self@)
    }

    fn compare_key(&self, other: &Self) -> (r: i8) {
        let a = crate::text::chars_of(self.as_str());
        let b = crate::text::chars_of(other.as_str());
        compare_chars(a.as_slice(), b.as_slice())
    }
}

/// Distinct texts have distinct keys.
pub proof fn lemma_char_key_injective(a: Seq<char>, b: Seq<char>)
    ensures
        char_key(a) == char_key(b) ==> a == b,
{
    if char_key(a) == char_key(b) {
        assert(a.len() == char_key(a).len());
        assert forall|i: int| 0 <= i < a.len() implies a[i] == b[i] by {
            assert(char_key(a)[i] == char_key(b)[i]);
        }
        assert(a =~= b);
    }
}

/// The texts of a strictly sorted list of strings are distinct, and as many as the list.
pub proof fn lemma_sorted_strings_set(v: Seq<String>)
    requires
        strictly_sorted(keys(v)),
    ensures
        v.map_values(|s: String| s@).no_duplicates(),
        v.map_values(|s: String| s@).to_set().len() == v.len(),
        v.map_values(|s: String| s@).to_set().finite(),
{
    let t = v.map_values(|s: String| s@);
    assert forall|i: int, j: int| 0 <= i < t.len() && 0 <= j < t.len() && i != j implies t[i] != t[j] by {
        if t[i] == t[j] {
            lemma_strictly_sorted_keys_unique(v, i, j);
        }
    }
    t.unique_seq_to_set();
}

} // verus!
