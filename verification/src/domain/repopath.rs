//! Repository-relative paths as raw bytes.
use vstd::prelude::*;

use crate::order::{byte_key, compare_bytes, SortKey};
use vstd::string::*;

verus! {

/// A path inside the repository, kept as the exact bytes Git reports.
#[derive(Debug, Clone, PartialEq, Eq, PartialOrd, Ord, Hash)]
pub struct RepoPath(pub Vec<u8>);

impl View for RepoPath {
    type V = Seq<u8>;

    open spec fn view(&self) -> Seq<u8> {
        self.0@
    }
}

impl SortKey for RepoPath {
    open spec fn key(&self) -> Seq<int> {
        byte_key(self.0@)
    }

    fn compare_key(&self, other: &Self) -> (r: i8) {
        let r = compare_bytes(self.0.as_slice(), other.0.as_slice());
        assert(self.key() == byte_key(self.0@));
        r
    }
}

/// Distinct byte strings have distinct keys.
pub proof fn lemma_byte_key_injective(a: Seq<u8>, b: Seq<u8>)
    ensures
        byte_key(a) == byte_key(b) ==> a == b,
{
    if byte_key(a) == byte_key(b) {
        assert(a.len() == byte_key(a).len());
        assert forall|i: int| 0 <= i < a.len() implies a[i] == b[i] by {
            assert(byte_key(a)[i] == byte_key(b)[i]);
        }
        assert(a =~= b);
    }
}

/// A copy of a byte vector.
pub fn copy_bytes(v: &Vec<u8>) -> (r: Vec<u8>)
    ensures
        r@ == v@,
{
    let mut r: Vec<u8> = Vec::new();
    let mut i: usize = 0;
    while i < v.len()
        invariant
            i <= v.len(),
            r@ == v@.take(i as int),
        decreases v.len() - i,
    {
        r.push(v[i]);
        assert(v@.take(i + 1) =~= v@.take(i as int).push(v@[i as int]));
        i = i + 1;
    }
    assert(v@.take(v@.len() as int) =~= v@);
    r
}

impl RepoPath {
    pub fn from_bytes(bytes: Vec<u8>) -> (p: Self)
        ensures
            p@ == bytes@,
    {
        RepoPath(bytes)
    }

    pub fn from_str(value: &str) -> (p: Self)
        ensures
            p@ == value.spec_bytes(),
    {
        let b = value.as_bytes();
        let mut v: Vec<u8> = Vec::new();
        let mut i: usize = 0;
        while i < b.len()
            invariant
                i <= b.len(),
                v@ == b@.take(i as int),
            decreases b.len() - i,
        {
            v.push(b[i]);
            assert(b@.take(i + 1) =~= b@.take(i as int).push(b@[i as int]));
            i = i + 1;
        }
        assert(b@.take(b@.len() as int) =~= b@);
        RepoPath(v)
    }

    pub fn as_bytes(&self) -> (b: &[u8])
        ensures
            b@ == self@,
    {
        self.0.as_slice()
    }

    /// A copy of this path.
    pub fn duplicate(&self) -> (p: Self)
        ensures
            p@ == self@,
    {
        RepoPath(copy_bytes(&self.0))
    }

    /// Whether two paths are the same bytes.
    pub fn same_as(&self, other: &Self) -> (r: bool)
        ensures
            r == (self@ == other@),
    {
        let c = compare_bytes(self.0.as_slice(), other.0.as_slice());
        proof { lemma_byte_key_injective(self@, other@); }
        c == 0
    }
}

} // verus!
