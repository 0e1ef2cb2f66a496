//! Relative paths as `std::path::Path` reads them on Unix, and glob patterns.
use vstd::prelude::*;

use crate::lines::chars_equal;

verus! {

/// The pieces of a text between `/` separators, given the piece already begun.
pub open spec fn pieces_from(s: Seq<char>, cur: Seq<char>) -> Seq<Seq<char>>
    decreases s.len(),
{
    if s.len() == 0 {
        seq![cur]
    } else if s[0] == '/' {
        seq![cur] + pieces_from(s.drop_first(), Seq::empty())
    } else {
        pieces_from(s.drop_first(), cur.push(s[0]))
    }
}

/// The pieces of a path between `/` separators (empty ones included).
pub open spec fn pieces(s: Seq<char>) -> Seq<Seq<char>> {
    pieces_from(s, Seq::empty())
}

/// Whether the piece at position `k` is a component: not empty, and not a `.` other than a
/// leading one of a relative path.
pub open spec fn is_component(piece: Seq<char>, k: int, absolute: bool) -> bool {
    piece.len() > 0 && !(piece == seq!['.'] && (k > 0 || absolute))
}

/// The components among the pieces from position `k` on.
pub open spec fn components_from(ps: Seq<Seq<char>>, k: int, absolute: bool) -> Seq<Seq<char>>
    decreases ps.len() - k,
{
    if k < 0 || k >= ps.len() {
        Seq::empty()
    } else if is_component(ps[k], k, absolute) {
        seq![ps[k]] + components_from(ps, k + 1, absolute)
    } else {
        components_from(ps, k + 1, absolute)
    }
}

/// The components of a path, as `Path::components` gives them: the root (written `/`) of an
/// absolute path, then its non-empty pieces, with `.` dropped except at the start of a
/// relative path.
pub open spec fn path_components(p: Seq<char>) -> Seq<Seq<char>> {
    let absolute = p.len() > 0 && p[0] == '/';
    (if absolute {
        seq![seq!['/']]
    } else {
        Seq::empty()
    }) + components_from(pieces(p), 0, absolute)
}

/// `Path::starts_with`: the components of `base` begin the components of `p`.
pub open spec fn path_starts_with(p: Seq<char>, base: Seq<char>) -> bool {
    let a = path_components(p);
    let b = path_components(base);
    b.len() <= a.len() && a.subrange(0, b.len() as int) == b
}

fn split_pieces(s: &[char]) -> (r: Vec<Vec<char>>)
    ensures
        r@.map_values(|v: Vec<char>| v@) == pieces(s@),
{
    let mut out: Vec<Vec<char>> = Vec::new();
    let mut cur: Vec<char> = Vec::new();
    let mut i: usize = 0;
    assert(s@.skip(0) =~= s@);
    while i < s.len()
        invariant
            i <= s@.len(),
            pieces(s@) == out@.map_values(|v: Vec<char>| v@) + pieces_from(s@.skip(i as int), cur@),
        decreases s.len() - i,
    {
        assert(s@.skip(i as int).drop_first() =~= s@.skip(i + 1));
        assert(s@.skip(i as int)[0] == s@[i as int]);
        if s[i] == '/' {
            let ghost before = out@;
            let ghost piece = cur@;
            out.push(cur);
            cur = Vec::new();
            proof {
                assert(out@.map_values(|v: Vec<char>| v@) =~= before.map_values(|v: Vec<char>| v@).push(piece));
                assert(before.map_values(|v: Vec<char>| v@).push(piece) + pieces_from(
                    s@.skip(i + 1),
                    Seq::empty(),
                ) =~= before.map_values(|v: Vec<char>| v@) + (seq![piece] + pieces_from(
                    s@.skip(i + 1),
                    Seq::empty(),
                )));
            }
        } else {
            cur.push(s[i]);
        }
        i = i + 1;
    }
    let ghost before = out@;
    let ghost piece = cur@;
    out.push(cur);
    proof {
        assert(out@.map_values(|v: Vec<char>| v@) =~= before.map_values(|v: Vec<char>| v@).push(piece));
    }
    out
}

/// The components of a path.
pub fn components(p: &str) -> (r: Vec<Vec<char>>)
    ensures
        r@.map_values(|v: Vec<char>| v@) == path_components(p@),
{
    let cs = crate::text::chars_of(p);
    let absolute = cs.len() > 0 && cs[0] == '/';
    let ps = split_pieces(cs.as_slice());
    let ghost pv = ps@.map_values(|v: Vec<char>| v@);
    let mut out: Vec<Vec<char>> = Vec::new();
    if absolute {
        let mut root: Vec<char> = Vec::new();
        root.push('/');
        out.push(root);
    }
    let ghost start = out@.map_values(|v: Vec<char>| v@);
    assert(start =~= (if absolute {
        seq![seq!['/']]
    } else {
        Seq::<Seq<char>>::empty()
    }));
    let mut k: usize = 0;
    while k < ps.len()
        invariant
            k <= ps@.len(),
            pv == ps@.map_values(|v: Vec<char>| v@),
            pv == pieces(p@),
            absolute == (p@.len() > 0 && p@[0] == '/'),
            path_components(p@) == out@.map_values(|v: Vec<char>| v@) + components_from(
                pv,
                k as int,
                absolute,
            ),
        decreases ps.len() - k,
    {
        let piece = &ps[k];
        let dot = piece.len() == 1 && piece[0] == '.';
        assert(piece@ == pv[k as int]);
        proof {
            if piece@.len() == 1 {
                assert(dot == (piece@ == seq!['.'])) by {
                    if piece@[0] == '.' {
                        assert(piece@ =~= seq!['.']);
                    }
                }
            } else {
                assert(piece@ != seq!['.']);
            }
        }
        if piece.len() > 0 && !(dot && (k > 0 || absolute)) {
            let ghost before = out@;
            out.push(piece.clone());
            proof {
                assert(out@.map_values(|v: Vec<char>| v@) =~= before.map_values(|v: Vec<char>| v@).push(pv[k as int]));
                assert(before.map_values(|v: Vec<char>| v@).push(pv[k as int]) + components_from(
                    pv,
                    k + 1,
                    absolute,
                ) =~= before.map_values(|v: Vec<char>| v@) + (seq![pv[k as int]] + components_from(
                    pv,
                    k + 1,
                    absolute,
                )));
            }
        }
        k = k + 1;
    }
    assert(components_from(pv, k as int, absolute) =~= Seq::<Seq<char>>::empty());
    assert(out@.map_values(|v: Vec<char>| v@) + Seq::<Seq<char>>::empty() =~= out@.map_values(|v: Vec<char>| v@));
    out
}

/// Whether a path lies under a base path (`Path::starts_with`).
pub fn starts_with_path(p: &str, base: &str) -> (r: bool)
    ensures
        r == path_starts_with(p@, base@),
{
    let a = components(p);
    let b = components(base);
    let ghost av = a@.map_values(|v: Vec<char>| v@);
    let ghost bv = b@.map_values(|v: Vec<char>| v@);
    if b.len() > a.len() {
        return false;
    }
    let mut i: usize = 0;
    while i < b.len()
        invariant
            b@.len() <= a@.len(),
            i <= b@.len(),
            av == a@.map_values(|v: Vec<char>| v@),
            bv == b@.map_values(|v: Vec<char>| v@),
            av == path_components(p@),
            bv == path_components(base@),
            forall|k: int| 0 <= k < i ==> av[k] == bv[k],
        decreases b.len() - i,
    {
        if !chars_equal(a[i].as_slice(), b[i].as_slice()) {
            assert(av.subrange(0, bv.len() as int)[i as int] != bv[i as int]);
            return false;
        }
        i = i + 1;
    }
    assert(av.subrange(0, bv.len() as int) =~= bv);
    true
}

/// Whether `glob` parses as a glob pattern (`globset::Glob::new` succeeds).
pub uninterp spec fn glob_parses(glob: Seq<char>) -> bool;

/// Whether the glob pattern matches the path (`globset` semantics with default options; a
/// `GlobSet` matches a path when one of its patterns does).
pub uninterp spec fn glob_matches(glob: Seq<char>, path: Seq<char>) -> bool;

/// `globset::Glob::new`: whether the pattern parses.
#[verifier::external_body]
pub(crate) fn glob_is_valid(glob: &str) -> (r: bool)
    ensures
        r == glob_parses(glob@),
{
    globset::Glob::new(glob).is_ok()
}

/// Whether a `globset::GlobSet` of these patterns (each of which parses) can be built: its
/// `build` fails only when the compiled matcher exceeds globset's fixed size limit, which
/// depends on the patterns alone.
pub uninterp spec fn glob_set_builds(globs: Seq<Seq<char>>) -> bool;

/// The texts of a list of strings.
pub open spec fn glob_texts(globs: Seq<String>) -> Seq<Seq<char>> {
    globs.map_values(|g: String| g@)
}

/// `globset::GlobSetBuilder` with every pattern (`Glob::new`, `add`), `build`, then
/// `GlobSet::is_match` on each path: whether some pattern matches it. `None` exactly when a
/// pattern does not parse or the set cannot be built.
#[verifier::external_body]
pub(crate) fn glob_set_matches(globs: &[String], paths: &[String]) -> (r: Option<Vec<bool>>)
    ensures
        r is None <==> ((exists|i: int| 0 <= i < globs@.len() && !glob_parses((#[trigger] globs@[i])@))
            || !glob_set_builds(glob_texts(globs@))),
        r matches Some(v) ==> v@.len() == paths@.len() && forall|k: int|
            #![trigger v@[k]]
            0 <= k < paths@.len() ==> (v@[k] <==> exists|i: int|
                #![trigger globs@[i]]
                0 <= i < globs@.len() && glob_matches(globs@[i]@, paths@[k]@)),
{
    let mut builder = globset::GlobSetBuilder::new();
    for glob in globs {
        match globset::Glob::new(glob) {
            Ok(g) => builder.add(g),
            Err(_) => return None,
        };
    }
    match builder.build() {
        Ok(set) => Some(paths.iter().map(|p| set.is_match(p.as_str())).collect()),
        Err(_) => None,
    }
}

} // verus!
