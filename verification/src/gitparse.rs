//! Reading Git's output: NUL-separated path lists, porcelain status, tar archives.
use vstd::prelude::*;

use crate::config::is_white_space;
use crate::domain::repopath::RepoPath;
use crate::engine::repair::TreeEntry;
use crate::order::SortKey;

verus! {

/// The fields of a byte string separated by `sep`, given the field already begun.
pub open spec fn byte_fields_from(s: Seq<u8>, sep: u8, cur: Seq<u8>) -> Seq<Seq<u8>>
    decreases s.len(),
{
    if s.len() == 0 {
        seq![cur]
    } else if s[0] == sep {
        seq![cur] + byte_fields_from(s.drop_first(), sep, Seq::empty())
    } else {
        byte_fields_from(s.drop_first(), sep, cur.push(s[0]))
    }
}

/// The fields of a NUL-separated byte string.
pub open spec fn nul_fields(s: Seq<u8>) -> Seq<Seq<u8>> {
    byte_fields_from(s, 0u8, Seq::empty())
}

/// The views of a list of paths.
pub open spec fn path_views(v: Seq<RepoPath>) -> Seq<Seq<u8>> {
    v.map_values(|p: RepoPath| p@)
}

/// Splits a byte string into the fields that `sep` separates, in order.
pub fn split_bytes(s: &[u8], sep: u8) -> (r: Vec<Vec<u8>>)
    ensures
        r@.map_values(|v: Vec<u8>| v@) == byte_fields_from(s@, sep, Seq::empty()),
{
    let mut out: Vec<Vec<u8>> = Vec::new();
    let mut cur: Vec<u8> = Vec::new();
    let mut i: usize = 0;
    assert(s@.skip(0) =~= s@);
    while i < s.len()
        invariant
            i <= s@.len(),
            byte_fields_from(s@, sep, Seq::empty()) == out@.map_values(|v: Vec<u8>| v@) + byte_fields_from(
                s@.skip(i as int),
                sep,
                cur@,
            ),
        decreases s.len() - i,
    {
        assert(s@.skip(i as int).drop_first() =~= s@.skip(i + 1));
        assert(s@.skip(i as int)[0] == s@[i as int]);
        if s[i] == sep {
            let ghost before = out@;
            let ghost field = cur@;
            out.push(cur);
            cur = Vec::new();
            proof {
                assert(out@.map_values(|v: Vec<u8>| v@) =~= before.map_values(|v: Vec<u8>| v@).push(field));
                assert(before.map_values(|v: Vec<u8>| v@).push(field) + byte_fields_from(
                    s@.skip(i + 1),
                    sep,
                    Seq::empty(),
                ) =~= before.map_values(|v: Vec<u8>| v@) + (seq![field] + byte_fields_from(
                    s@.skip(i + 1),
                    sep,
                    Seq::empty(),
                )));
            }
        } else {
            cur.push(s[i]);
        }
        i = i + 1;
    }
    let ghost before = out@;
    let ghost field = cur@;
    out.push(cur);
    assert(out@.map_values(|v: Vec<u8>| v@) =~= before.map_values(|v: Vec<u8>| v@).push(field));
    out
}

/// Splits a NUL-separated byte string into its fields, in order.
pub fn split_nul_bytes(s: &[u8]) -> (r: Vec<Vec<u8>>)
    ensures
        r@.map_values(|v: Vec<u8>| v@) == nul_fields(s@),
{
    split_bytes(s, 0u8)
}

/// The paths of a NUL-separated list: its non-empty fields.
pub open spec fn spec_path_list(s: Seq<u8>) -> Seq<Seq<u8>> {
    nul_fields(s).filter(|f: Seq<u8>| f.len() > 0)
}

/// The paths of Git's NUL-separated path output.
pub fn path_list_from_output(bytes: &[u8]) -> (r: Vec<RepoPath>)
    ensures
        path_views(r@) == spec_path_list(bytes@),
{
    let fields = split_nul_bytes(bytes);
    let ghost fv = fields@.map_values(|v: Vec<u8>| v@);
    let ghost keep = |f: Seq<u8>| f.len() > 0;
    let mut rest = fields;
    let mut r: Vec<RepoPath> = Vec::new();
    let ghost mut i: int = 0;
    assert(fv.take(0).filter(keep) =~= Seq::<Seq<u8>>::empty()) by {
        reveal(Seq::filter);
    }
    assert(rest@.map_values(|v: Vec<u8>| v@) =~= fv.skip(0));
    while rest.len() > 0
        invariant
            0 <= i <= fv.len(),
            keep == (|f: Seq<u8>| f.len() > 0),
            fv == nul_fields(bytes@),
            rest@.map_values(|v: Vec<u8>| v@) == fv.skip(i),
            path_views(r@) == fv.take(i).filter(keep),
        decreases rest.len(),
    {
        let ghost rest_before = rest@;
        let f = rest.remove(0);
        proof {
            reveal(Seq::filter);
            assert(rest_before.map_values(|v: Vec<u8>| v@).len() == rest_before.len());
            assert(i < fv.len());
            assert(rest_before.map_values(|v: Vec<u8>| v@)[0] == f@);
            assert(fv.skip(i)[0] == fv[i]);
            assert(fv.take(i + 1).drop_last() =~= fv.take(i));
            assert(fv.take(i + 1).last() == f@);
            assert(rest@ =~= rest_before.drop_first());
            assert(rest@.map_values(|v: Vec<u8>| v@) =~= rest_before.map_values(|v: Vec<u8>| v@).drop_first());
            assert(fv.skip(i).drop_first() =~= fv.skip(i + 1));
            assert(rest@.map_values(|v: Vec<u8>| v@) =~= fv.skip(i + 1));
            i = i + 1;
        }
        if f.len() > 0 {
            let ghost before = r@;
            let p = RepoPath::from_bytes(f);
            r.push(p);
            assert(path_views(r@) =~= path_views(before).push(p@));
        }
    }
    assert(fv.take(fv.len() as int) =~= fv);
    r
}

/// The paths of `git status --porcelain=v1 -z` output: each field longer than the
/// three-byte status prefix, without the prefix.
pub open spec fn spec_status_paths(s: Seq<u8>) -> Seq<Seq<u8>> {
    nul_fields(s).filter(|f: Seq<u8>| f.len() > 3).map_values(|f: Seq<u8>| f.skip(3))
}

/// The paths of porcelain status output.
pub fn status_paths_from_output(bytes: &[u8]) -> (r: Vec<RepoPath>)
    ensures
        path_views(r@) == spec_status_paths(bytes@),
{
    let fields = split_nul_bytes(bytes);
    let ghost fv = fields@.map_values(|v: Vec<u8>| v@);
    let ghost keep = |f: Seq<u8>| f.len() > 3;
    let ghost strip = |f: Seq<u8>| f.skip(3);
    let mut r: Vec<RepoPath> = Vec::new();
    let mut i: usize = 0;
    assert(fv.take(0).filter(keep) =~= Seq::<Seq<u8>>::empty()) by {
        reveal(Seq::filter);
    }
    assert(path_views(r@) =~= fv.take(0).filter(keep).map_values(strip));
    while i < fields.len()
        invariant
            i <= fields@.len(),
            keep == (|f: Seq<u8>| f.len() > 3),
            strip == (|f: Seq<u8>| f.skip(3)),
            fv == fields@.map_values(|v: Vec<u8>| v@),
            fv == nul_fields(bytes@),
            path_views(r@) == fv.take(i as int).filter(keep).map_values(strip),
        decreases fields.len() - i,
    {
        let f = &fields[i];
        proof {
            reveal(Seq::filter);
            assert(fv.take(i + 1).drop_last() =~= fv.take(i as int));
            assert(fv.take(i + 1).last() == f@);
        }
        if f.len() > 3 {
            let ghost before = r@;
            let mut tail: Vec<u8> = Vec::new();
            let mut k: usize = 3;
            while k < f.len()
                invariant
                    3 <= k <= f@.len(),
                    tail@ == f@.subrange(3, k as int),
                decreases f.len() - k,
            {
                tail.push(f[k]);
                assert(f@.subrange(3, k + 1) =~= f@.subrange(3, k as int).push(f@[k as int]));
                k = k + 1;
            }
            assert(tail@ =~= f@.skip(3));
            let p = RepoPath::from_bytes(tail);
            r.push(p);
            proof {
                assert(path_views(r@) =~= path_views(before).push(f@.skip(3)));
                assert(fv.take(i + 1).filter(keep) =~= fv.take(i as int).filter(keep).push(f@));
                assert(fv.take(i + 1).filter(keep).map_values(strip) =~= fv.take(i as int).filter(
                    keep,
                ).map_values(strip).push(f@.skip(3)));
            }
        }
        i = i + 1;
    }
    assert(fv.take(fields@.len() as int) =~= fv);
    r
}

/// Output without its final newline, if it has one.
pub open spec fn spec_trim_trailing_newline(s: Seq<u8>) -> Seq<u8> {
    if s.len() > 0 && s.last() == 10u8 {
        s.drop_last()
    } else {
        s
    }
}

/// Git output without the newline that ends it.
pub fn trim_trailing_newline(bytes: &[u8]) -> (r: Vec<u8>)
    ensures
        r@ == spec_trim_trailing_newline(bytes@),
{
    let end = if bytes.len() > 0 && bytes[bytes.len() - 1] == 10u8 {
        bytes.len() - 1
    } else {
        bytes.len()
    };
    let mut r: Vec<u8> = Vec::new();
    let mut i: usize = 0;
    while i < end
        invariant
            end <= bytes@.len(),
            i <= end,
            r@ == bytes@.take(i as int),
        decreases end - i,
    {
        r.push(bytes[i]);
        assert(bytes@.take(i + 1) =~= bytes@.take(i as int).push(bytes@[i as int]));
        i = i + 1;
    }
    assert(r@ =~= spec_trim_trailing_newline(bytes@));
    r
}

/// Position of the first NUL at or after `i` (or the length).
pub open spec fn first_nul(f: Seq<u8>, i: int) -> int
    decreases f.len() - i,
{
    if i < 0 || i >= f.len() {
        f.len() as int
    } else if f[i] == 0u8 {
        i
    } else {
        first_nul(f, i + 1)
    }
}

/// The text of a tar header field: its bytes before the first NUL.
pub open spec fn field_text(f: Seq<u8>) -> Seq<u8> {
    f.take(first_nul(f, 0))
}

proof fn lemma_first_nul(f: Seq<u8>, i: int)
    requires
        0 <= i <= f.len(),
    ensures
        i <= first_nul(f, i) <= f.len(),
        first_nul(f, i) < f.len() ==> f[first_nul(f, i)] == 0u8,
        forall|k: int| i <= k < first_nul(f, i) ==> f[k] != 0u8,
    decreases f.len() - i,
{
    if i < f.len() && f[i] != 0u8 {
        lemma_first_nul(f, i + 1);
    }
}

/// The bytes of a header field before its first NUL.
pub fn tar_field(bytes: &[u8]) -> (r: Vec<u8>)
    ensures
        r@ == field_text(bytes@),
{
    proof {
        lemma_first_nul(bytes@, 0);
    }
    let mut r: Vec<u8> = Vec::new();
    let mut i: usize = 0;
    while i < bytes.len() && bytes[i] != 0u8
        invariant
            i <= bytes@.len(),
            first_nul(bytes@, 0) == first_nul(bytes@, i as int),
            r@ == bytes@.take(i as int),
        decreases bytes.len() - i,
    {
        r.push(bytes[i]);
        assert(bytes@.take(i + 1) =~= bytes@.take(i as int).push(bytes@[i as int]));
        i = i + 1;
    }
    r
}

/// The text of bytes read as UTF-8, each invalid sequence replaced by U+FFFD.
pub uninterp spec fn utf8_lossy(bytes: Seq<u8>) -> Seq<char>;

/// `String::from_utf8_lossy`: the bytes as text, invalid sequences replaced by U+FFFD.
/// ASCII bytes come through unchanged.
#[verifier::external_body]
pub(crate) fn decode_lossy(bytes: &[u8]) -> (r: String)
    ensures
        r@ == utf8_lossy(bytes@),
        (forall|i: int| 0 <= i < bytes@.len() ==> bytes@[i] < 128) ==> r@ == bytes@.map_values(
            |b: u8| b as char,
        ),
{
    String::from_utf8_lossy(bytes).into_owned()
}

/// Position of the first character at or after `i` that is not white space.
pub open spec fn first_non_white(s: Seq<char>, i: int) -> int
    decreases s.len() - i,
{
    if i < 0 || i >= s.len() {
        s.len() as int
    } else if !is_white_space(s[i]) {
        i
    } else {
        first_non_white(s, i + 1)
    }
}

/// One past the last character before `j` that is not white space (or zero).
pub open spec fn last_non_white(s: Seq<char>, j: int) -> int
    decreases j,
{
    if j <= 0 || j > s.len() {
        0
    } else if !is_white_space(s[j - 1]) {
        j
    } else {
        last_non_white(s, j - 1)
    }
}

/// A text without white space at either end (`str::trim`).
pub open spec fn trim_white(s: Seq<char>) -> Seq<char> {
    let a = first_non_white(s, 0);
    if a >= s.len() {
        Seq::empty()
    } else {
        s.subrange(a, last_non_white(s, s.len() as int))
    }
}

proof fn lemma_first_non_white(s: Seq<char>, i: int)
    requires
        0 <= i <= s.len(),
    ensures
        i <= first_non_white(s, i) <= s.len(),
        first_non_white(s, i) < s.len() ==> !is_white_space(s[first_non_white(s, i)]),
        forall|k: int| i <= k < first_non_white(s, i) ==> is_white_space(#[trigger] s[k]),
    decreases s.len() - i,
{
    if i < s.len() && is_white_space(s[i]) {
        lemma_first_non_white(s, i + 1);
    }
}

proof fn lemma_last_non_white(s: Seq<char>, j: int)
    requires
        0 <= j <= s.len(),
    ensures
        0 <= last_non_white(s, j) <= j,
        last_non_white(s, j) > 0 ==> !is_white_space(s[last_non_white(s, j) - 1]),
        forall|k: int| last_non_white(s, j) <= k < j ==> is_white_space(#[trigger] s[k]),
    decreases j,
{
    if j > 0 && is_white_space(s[j - 1]) {
        lemma_last_non_white(s, j - 1);
    }
}

fn is_white_space_exec(c: char) -> (r: bool)
    ensures
        r == is_white_space(c),
{
    ('\t' <= c && c <= '\r') || c == ' ' || c == '\u{85}' || c == '\u{a0}' || c == '\u{1680}' || (
    '\u{2000}' <= c && c <= '\u{200a}') || c == '\u{2028}' || c == '\u{2029}' || c == '\u{202f}'
        || c == '\u{205f}' || c == '\u{3000}'
}

/// The characters without white space at either end.
pub fn trim_white_chars(s: &[char]) -> (r: Vec<char>)
    ensures
        r@ == trim_white(s@),
{
    proof {
        lemma_first_non_white(s@, 0);
        lemma_last_non_white(s@, s@.len() as int);
    }
    let mut a: usize = 0;
    while a < s.len() && is_white_space_exec(s[a])
        invariant
            a <= s@.len(),
            first_non_white(s@, 0) == first_non_white(s@, a as int),
        decreases s.len() - a,
    {
        a = a + 1;
    }
    if a >= s.len() {
        return Vec::new();
    }
    let mut b: usize = s.len();
    while b > 0 && is_white_space_exec(s[b - 1])
        invariant
            b <= s@.len(),
            last_non_white(s@, s@.len() as int) == last_non_white(s@, b as int),
        decreases b,
    {
        b = b - 1;
    }
    proof {
        lemma_first_non_white(s@, a as int);
        lemma_last_non_white(s@, b as int);
        if b <= a {
            assert(forall|k: int| last_non_white(s@, s@.len() as int) <= k < s@.len() ==> is_white_space(#[trigger] s@[k]));
            assert(is_white_space(s@[a as int]));
        }
    }
    crate::lines::chars_range(s, a, b)
}

/// The value of a string of octal digits.
pub open spec fn octal_digits_value(s: Seq<char>) -> int
    decreases s.len(),
{
    if s.len() == 0 {
        0
    } else {
        octal_digits_value(s.drop_last()) * 8 + (s.last() as int - '0' as int)
    }
}

/// A string of octal digits.
pub open spec fn all_octal(s: Seq<char>) -> bool {
    forall|i: int| 0 <= i < s.len() ==> '0' <= #[trigger] s[i] <= '7'
}

/// `usize::from_str_radix(s, 8)`: an optional `+`, then at least one octal digit, with a
/// value that fits in `usize`.
pub open spec fn parse_octal(s: Seq<char>) -> Option<usize> {
    let body = if s.len() > 0 && s[0] == '+' {
        s.drop_first()
    } else {
        s
    };
    if body.len() > 0 && all_octal(body) && octal_digits_value(body) <= usize::MAX {
        Some(octal_digits_value(body) as usize)
    } else {
        None
    }
}

proof fn lemma_octal_nonneg(s: Seq<char>)
    requires
        all_octal(s),
    ensures
        octal_digits_value(s) >= 0,
    decreases s.len(),
{
    if s.len() > 0 {
        lemma_octal_nonneg(s.drop_last());
    }
}

proof fn lemma_octal_prefix_bound(s: Seq<char>, k: int)
    requires
        all_octal(s),
        0 <= k <= s.len(),
    ensures
        octal_digits_value(s.subrange(0, k)) <= octal_digits_value(s),
    decreases s.len() - k,
{
    if k < s.len() {
        lemma_octal_prefix_bound(s, k + 1);
        let next = s.subrange(0, k + 1);
        assert(next.drop_last() =~= s.subrange(0, k));
        lemma_octal_nonneg(s.subrange(0, k));
        assert(all_octal(next));
    } else {
        assert(s.subrange(0, k) =~= s);
    }
}

/// Parses an octal number as `usize::from_str_radix(.., 8)` does.
pub fn parse_octal_chars(s: &[char]) -> (r: Option<usize>)
    ensures
        r == parse_octal(s@),
{
    let start: usize = if s.len() > 0 && s[0] == '+' {
        1
    } else {
        0
    };
    let ghost body = s@.subrange(start as int, s@.len() as int);
    assert(body =~= (if s@.len() > 0 && s@[0] == '+' {
        s@.drop_first()
    } else {
        s@
    }));
    if start >= s.len() {
        return None;
    }
    let mut value: usize = 0;
    let mut i: usize = start;
    while i < s.len()
        invariant
            start <= i <= s@.len(),
            start < s@.len(),
            body == s@.subrange(start as int, s@.len() as int),
            body == (if s@.len() > 0 && s@[0] == '+' {
                s@.drop_first()
            } else {
                s@
            }),
            all_octal(s@.subrange(start as int, i as int)),
            value == octal_digits_value(s@.subrange(start as int, i as int)),
        decreases s.len() - i,
    {
        let c = s[i];
        if c < '0' || c > '7' {
            assert(!all_octal(body)) by {
                assert(body[i - start] == c);
            }
            return None;
        }
        let d = (c as u32 - '0' as u32) as usize;
        let ghost next = s@.subrange(start as int, i + 1);
        assert(next.drop_last() =~= s@.subrange(start as int, i as int));
        assert(all_octal(next));
        if value > (usize::MAX - d) / 8 {
            proof {
                assert(octal_digits_value(next) > usize::MAX) by (nonlinear_arith)
                    requires
                        octal_digits_value(next) == value * 8 + d,
                        value > (usize::MAX - d) / 8,
                        d <= 7,
                ;
                if all_octal(body) {
                    lemma_octal_prefix_bound(body, i + 1 - start);
                    assert(body.subrange(0, i + 1 - start) =~= next);
                }
            }
            return None;
        }
        value = value * 8 + d;
        i = i + 1;
    }
    assert(s@.subrange(start as int, i as int) =~= body);
    Some(value)
}

/// The size in a tar header's size field: the field's text (before any NUL) read as text,
/// trimmed, and parsed as octal; zero when it does not parse.
pub open spec fn spec_tar_size(field: Seq<u8>) -> usize {
    match parse_octal(trim_white(utf8_lossy(field_text(field)))) {
        Some(n) => n,
        None => 0,
    }
}

/// Reads the size field of a tar header.
pub fn parse_tar_size(bytes: &[u8]) -> (r: usize)
    ensures
        r == spec_tar_size(bytes@),
{
    let text = tar_field(bytes);
    let decoded = decode_lossy(text.as_slice());
    let chars = crate::text::chars_of(decoded.as_str());
    let trimmed = trim_white_chars(chars.as_slice());
    match parse_octal_chars(trimmed.as_slice()) {
        Some(n) => n,
        None => 0,
    }
}

/// A block of zero bytes only.
pub open spec fn all_zero(h: Seq<u8>) -> bool {
    forall|i: int| 0 <= i < h.len() ==> h[i] == 0u8
}

/// The path a tar header names: the name field, after the prefix field and a `/` when
/// there is a prefix.
pub open spec fn header_path(h: Seq<u8>) -> Seq<u8> {
    let name = field_text(h.subrange(0, 100));
    let prefix = field_text(h.subrange(345, 500));
    if prefix.len() == 0 {
        name
    } else {
        prefix + seq![47u8] + name
    }
}

/// The offset of the header after one at `offset` whose entry has `size` bytes of data.
pub open spec fn next_header(offset: int, size: int) -> int {
    offset + 512 + ((size + 511) / 512) * 512
}

/// The paths of the entries of a tar archive from `offset` on: each header names a path,
/// kept unless it is empty or a directory (type `5`); the archive ends at an all-zero
/// block or when no full header is left.
pub open spec fn tar_paths_from(bytes: Seq<u8>, offset: int) -> Seq<Seq<u8>>
    decreases bytes.len() - offset,
{
    if offset < 0 || offset + 512 > bytes.len() {
        Seq::empty()
    } else {
        let h = bytes.subrange(offset, offset + 512);
        if all_zero(h) {
            Seq::empty()
        } else {
            let size = spec_tar_size(h.subrange(124, 136)) as int;
            let q = (size + 511) / 512;
            proof {
                assert(q >= 0);
                assert(q * 512 >= 0) by (nonlinear_arith)
                    requires
                        q >= 0,
                ;
            }
            let next = offset + 512 + q * 512;
            let rest = if next > bytes.len() {
                Seq::empty()
            } else {
                tar_paths_from(bytes, next)
            };
            if header_path(h).len() > 0 && h[156] != 53u8 {
                seq![header_path(h)] + rest
            } else {
                rest
            }
        }
    }
}

fn slice_copy(bytes: &[u8], from: usize, to: usize) -> (r: Vec<u8>)
    requires
        from <= to <= bytes@.len(),
    ensures
        r@ == bytes@.subrange(from as int, to as int),
{
    let mut r: Vec<u8> = Vec::new();
    let mut i = from;
    while i < to
        invariant
            from <= i <= to,
            to <= bytes@.len(),
            r@ == bytes@.subrange(from as int, i as int),
        decreases to - i,
    {
        r.push(bytes[i]);
        assert(bytes@.subrange(from as int, i + 1) =~= bytes@.subrange(from as int, i as int).push(
            bytes@[i as int],
        ));
        i = i + 1;
    }
    r
}

fn block_is_zero(bytes: &[u8], offset: usize) -> (r: bool)
    requires
        offset + 512 <= bytes.len(),
    ensures
        r == all_zero(bytes@.subrange(offset as int, offset + 512)),
{
    let ghost h = bytes@.subrange(offset as int, offset + 512);
    let mut k: usize = 0;
    while k < 512
        invariant
            offset + 512 <= bytes.len(),
            k <= 512,
            h == bytes@.subrange(offset as int, offset + 512),
            forall|j: int| 0 <= j < k ==> h[j] == 0u8,
        decreases 512 - k,
    {
        if bytes[offset + k] != 0u8 {
            assert(h[k as int] != 0u8);
            return false;
        }
        k = k + 1;
    }
    true
}

/// The paths listed in a tar archive (as `git archive` writes it), in order.
pub fn parse_tar_paths(bytes: &[u8]) -> (r: Vec<RepoPath>)
    ensures
        path_views(r@) == tar_paths_from(bytes@, 0),
{
    let mut paths: Vec<RepoPath> = Vec::new();
    let mut offset: usize = 0;
    while offset <= bytes.len() && bytes.len() - offset >= 512
        invariant
            offset <= bytes@.len() + 512,
            tar_paths_from(bytes@, 0) == path_views(paths@) + tar_paths_from(bytes@, offset as int),
        decreases bytes.len() + 512 - offset,
    {
        let ghost h = bytes@.subrange(offset as int, offset + 512);
        let zero = block_is_zero(bytes, offset);
        if zero {
            assert(tar_paths_from(bytes@, offset as int) =~= Seq::<Seq<u8>>::empty());
            assert(path_views(paths@) + Seq::<Seq<u8>>::empty() =~= path_views(paths@));
            return paths;
        }
        let name = tar_field(slice_copy(bytes, offset, offset + 100).as_slice());
        let prefix = tar_field(slice_copy(bytes, offset + 345, offset + 500).as_slice());
        proof {
            assert(bytes@.subrange(offset as int, offset + 100) =~= h.subrange(0, 100));
            assert(bytes@.subrange(offset + 345, offset + 500) =~= h.subrange(345, 500));
        }
        let mut path = prefix;
        if path.len() > 0 {
            path.push(47u8);
            let mut j: usize = 0;
            let ghost base = path@;
            while j < name.len()
                invariant
                    j <= name@.len(),
                    path@ == base + name@.take(j as int),
                decreases name.len() - j,
            {
                path.push(name[j]);
                assert(name@.take(j + 1) =~= name@.take(j as int).push(name@[j as int]));
                j = j + 1;
            }
            assert(name@.take(name@.len() as int) =~= name@);
        } else {
            path = name;
        }
        assert(path@ == header_path(h));
        let typeflag = bytes[offset + 156];
        assert(typeflag == h[156]);
        let size = parse_tar_size(slice_copy(bytes, offset + 124, offset + 136).as_slice());
        assert(bytes@.subrange(offset + 124, offset + 136) =~= h.subrange(124, 136));
        let ghost rest = tar_paths_from(bytes@, next_header(offset as int, size as int));
        if path.len() > 0 && typeflag != 53u8 {
            let ghost before = paths@;
            let p = RepoPath::from_bytes(path);
            paths.push(p);
            proof {
                assert(path_views(paths@) =~= path_views(before).push(p@));
                assert(path_views(before).push(p@) + rest =~= path_views(before) + (seq![p@] + rest));
            }
        }
        let blocks: u128 = (size as u128 + 511) / 512;
        let next: u128 = offset as u128 + 512 + blocks * 512;
        assert(next == next_header(offset as int, size as int));
        if next > bytes.len() as u128 {
            assert(rest =~= Seq::<Seq<u8>>::empty());
            assert(path_views(paths@) + Seq::<Seq<u8>>::empty() =~= path_views(paths@));
            return paths;
        }
        offset = next as usize;
    }
    assert(tar_paths_from(bytes@, offset as int) =~= Seq::<Seq<u8>>::empty());
    assert(path_views(paths@) + Seq::<Seq<u8>>::empty() =~= path_views(paths@));
    paths
}


/// The first position at or after `i` where `s` holds `b`, or its length.
pub open spec fn first_byte(s: Seq<u8>, b: u8, i: int) -> int
    decreases s.len() - i,
{
    if i < 0 || i >= s.len() {
        s.len() as int
    } else if s[i] == b {
        i
    } else {
        first_byte(s, b, i + 1)
    }
}

fn find_byte(s: &[u8], b: u8) -> (r: usize)
    ensures
        r as int == first_byte(s@, b, 0),
{
    let mut i: usize = 0;
    while i < s.len()
        invariant
            i <= s@.len(),
            first_byte(s@, b, 0) == first_byte(s@, b, i as int),
        decreases s.len() - i,
    {
        if s[i] == b {
            return i;
        }
        i = i + 1;
    }
    i
}

/// One record of `git ls-tree -z`: mode, type and object id separated by single spaces, a
/// tab, then a non-empty path; the mode is octal and fits in 32 bits.
pub open spec fn tree_record(f: Seq<u8>) -> Option<(u32, Seq<char>, Seq<char>, Seq<u8>)> {
    let t = first_byte(f, 9u8, 0);
    if t >= f.len() {
        None
    } else {
        let parts = byte_fields_from(f.take(t), 32u8, Seq::empty());
        let path = f.skip(t + 1);
        if parts.len() != 3 || path.len() == 0 {
            None
        } else {
            match parse_octal(utf8_lossy(parts[0])) {
                Some(m) => if m <= u32::MAX {
                    Some((m as u32, utf8_lossy(parts[1]), utf8_lossy(parts[2]), path))
                } else {
                    None
                },
                None => None,
            }
        }
    }
}

/// The records of a list of fields, the malformed ones left out.
pub open spec fn tree_records(fields: Seq<Seq<u8>>) -> Seq<(u32, Seq<char>, Seq<char>, Seq<u8>)>
    decreases fields.len(),
{
    if fields.len() == 0 {
        Seq::empty()
    } else {
        let rest = tree_records(fields.drop_last());
        match tree_record(fields.last()) {
            Some(r) => rest.push(r),
            None => rest,
        }
    }
}

/// The content of a tree entry.
pub open spec fn tree_entry_view(e: TreeEntry) -> (u32, Seq<char>, Seq<char>, Seq<u8>) {
    (e.mode, e.kind@, e.oid@, e.path@)
}

fn parse_tree_record(f: &[u8]) -> (r: Option<TreeEntry>)
    ensures
        match r {
            Some(e) => tree_record(f@) == Some(tree_entry_view(e)),
            None => tree_record(f@) is None,
        },
{
    let t = find_byte(f, 9u8);
    if t >= f.len() {
        return None;
    }
    let header = slice_copy(f, 0, t);
    let path = slice_copy(f, t + 1, f.len());
    assert(header@ =~= f@.take(t as int));
    assert(path@ =~= f@.skip(t + 1));
    let parts = split_bytes(header.as_slice(), 32u8);
    let ghost pv = parts@.map_values(|v: Vec<u8>| v@);
    if parts.len() != 3 || path.len() == 0 {
        assert(pv.len() == parts@.len());
        return None;
    }
    assert(pv[0] == parts@[0]@ && pv[1] == parts@[1]@ && pv[2] == parts@[2]@);
    let mode_text = decode_lossy(parts[0].as_slice());
    let mode_chars = crate::text::chars_of(mode_text.as_str());
    let m = match parse_octal_chars(mode_chars.as_slice()) {
        Some(m) => m,
        None => return None,
    };
    if m > 4294967295usize {
        return None;
    }
    let kind = decode_lossy(parts[1].as_slice());
    let oid = decode_lossy(parts[2].as_slice());
    Some(TreeEntry { mode: m as u32, kind, oid, path: RepoPath::from_bytes(path) })
}

/// Reads the output of `git ls-tree -z`: one entry per well-formed record, in order.
pub fn parse_ls_tree(bytes: &[u8]) -> (r: Vec<TreeEntry>)
    ensures
        r@.map_values(|e: TreeEntry| tree_entry_view(e)) == tree_records(nul_fields(bytes@)),
{
    let fields = split_nul_bytes(bytes);
    let ghost fv = fields@.map_values(|v: Vec<u8>| v@);
    let mut out: Vec<TreeEntry> = Vec::new();
    let mut i: usize = 0;
    assert(fv.take(0) =~= Seq::<Seq<u8>>::empty());
    while i < fields.len()
        invariant
            i <= fields@.len(),
            fv == fields@.map_values(|v: Vec<u8>| v@),
            out@.map_values(|e: TreeEntry| tree_entry_view(e)) == tree_records(fv.take(i as int)),
        decreases fields.len() - i,
    {
        let ghost before = out@;
        assert(fv.take(i + 1).drop_last() =~= fv.take(i as int));
        assert(fv.take(i + 1).last() == fields@[i as int]@);
        match parse_tree_record(fields[i].as_slice()) {
            Some(e) => {
                out.push(e);
                assert(out@.map_values(|e: TreeEntry| tree_entry_view(e)) =~= before.map_values(
                    |e: TreeEntry| tree_entry_view(e),
                ).push(tree_entry_view(out@[before.len() as int])));
            },
            None => {},
        }
        i = i + 1;
    }
    assert(fv.take(fields@.len() as int) =~= fv);
    out
}

/// Whether a `git config --bool` answer is `true` (surrounding white space ignored).
pub fn config_is_true(stdout: &[u8]) -> (r: bool)
    ensures
        r == (trim_white(utf8_lossy(stdout@)) == "true"@),
{
    let text = decode_lossy(stdout);
    let chars = crate::text::chars_of(text.as_str());
    let trimmed = trim_white_chars(chars.as_slice());
    let expected = crate::text::chars_of("true");
    crate::lines::chars_equal(trimmed.as_slice(), expected.as_slice())
}


/// The paths of two lists together, sorted by path, each once: a path is listed when either
/// list holds it, and every listed path comes from one of them.
pub fn union_paths(a: Vec<RepoPath>, b: Vec<RepoPath>) -> (r: Vec<RepoPath>)
    ensures
        crate::order::strictly_sorted(crate::order::keys(r@)),
        forall|k: Seq<int>| crate::order::has_key(r@, k) <==> (crate::order::has_key(a@, k) || crate::order::has_key(b@, k)),
        forall|i: int| 0 <= i < r@.len() ==> (a@.contains(#[trigger] r@[i]) || b@.contains(r@[i])),
{
    let ghost av = a@;
    let ghost bv = b@;
    let mut all = a;
    let mut rest = b;
    all.append(&mut rest);
    let ghost allv = all@;
    assert(allv =~= av + bv);
    assert forall|k: Seq<int>| crate::order::has_key(allv, k) <==> (crate::order::has_key(av, k) || crate::order::has_key(bv, k)) by {
        if crate::order::has_key(allv, k) {
            let i = choose|i: int| 0 <= i < allv.len() && #[trigger] allv[i].key() == k;
            if i < av.len() {
                assert(allv[i] == av[i]);
            } else {
                assert(allv[i] == bv[i - av.len()]);
            }
        }
        if crate::order::has_key(av, k) {
            let i = choose|i: int| 0 <= i < av.len() && #[trigger] av[i].key() == k;
            assert(allv[i] == av[i]);
        }
        if crate::order::has_key(bv, k) {
            let i = choose|i: int| 0 <= i < bv.len() && #[trigger] bv[i].key() == k;
            assert(allv[i + av.len()] == bv[i]);
        }
    }
    let r = crate::order::sort_unique(all);
    assert forall|i: int| 0 <= i < r@.len() implies (av.contains(#[trigger] r@[i]) || bv.contains(r@[i])) by {
        assert(allv.contains(r@[i]));
        let j = choose|j: int| 0 <= j < allv.len() && allv[j] == r@[i];
        if j < av.len() {
            assert(allv[j] == av[j]);
        } else {
            assert(allv[j] == bv[j - av.len()]);
        }
    }
    r
}

} // verus!
