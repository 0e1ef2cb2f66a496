//! Lines of text and `Key: value` footer lines.
use vstd::prelude::*;

use crate::text::{chars_of, chars_start_with, find_chars, first_occurrence_from, lemma_first_occurrence_from, occurs_at};

verus! {

/// A line without the carriage return that ends it, if any.
pub open spec fn strip_cr(l: Seq<char>) -> Seq<char> {
    if l.len() > 0 && l.last() == '\r' {
        l.drop_last()
    } else {
        l
    }
}

/// The lines of `s`, given the characters `cur` of the line already begun: a line ends at
/// each `\n` (a `\r` right before it is dropped), and the text after the last `\n` is a line
/// only when it is not empty.
pub open spec fn lines_from(s: Seq<char>, cur: Seq<char>) -> Seq<Seq<char>>
    decreases s.len(),
{
    if s.len() == 0 {
        if cur.len() == 0 {
            Seq::empty()
        } else {
            seq![cur]
        }
    } else if s[0] == '\n' {
        seq![strip_cr(cur)] + lines_from(s.drop_first(), Seq::empty())
    } else {
        lines_from(s.drop_first(), cur.push(s[0]))
    }
}

/// The lines of a text, as `str::lines` yields them.
pub open spec fn text_lines(s: Seq<char>) -> Seq<Seq<char>> {
    lines_from(s, Seq::empty())
}

/// A line split at its first `": "` into key and value.
pub open spec fn split_key(line: Seq<char>) -> Option<(Seq<char>, Seq<char>)> {
    match first_occurrence_from(line, seq![':', ' '], 0) {
        Some(i) => Some((line.take(i), line.skip(i + 2))),
        None => None,
    }
}

/// The value of a line whose key is `key`.
pub open spec fn line_value(line: Seq<char>, key: Seq<char>) -> Option<Seq<char>> {
    match split_key(line) {
        Some(kv) => if kv.0 == key {
            Some(kv.1)
        } else {
            None
        },
        None => None,
    }
}

/// The value of the last line whose key is `key`.
pub open spec fn lookup_line(lines: Seq<Seq<char>>, key: Seq<char>) -> Option<Seq<char>>
    decreases lines.len(),
{
    if lines.len() == 0 {
        None
    } else {
        match line_value(lines.last(), key) {
            Some(v) => Some(v),
            None => lookup_line(lines.drop_last(), key),
        }
    }
}

/// The value that a text gives to the footer `key`: that of its last line with this key.
pub open spec fn footer_value(s: Seq<char>, key: Seq<char>) -> Option<Seq<char>> {
    lookup_line(text_lines(s), key)
}

/// One footer line: key, `: `, value, newline.
pub open spec fn footer_line(key: Seq<char>, value: Seq<char>) -> Seq<char> {
    key + seq![':', ' '] + value + seq!['\n']
}

/// A footer key: no `:` and no newline in it.
pub open spec fn plain_key(k: Seq<char>) -> bool {
    forall|j: int| 0 <= j < k.len() ==> k[j] != ':' && k[j] != '\n'
}

/// A value that keeps to its footer line: no newline in it, and no carriage return at its end.
pub open spec fn single_line(v: Seq<char>) -> bool {
    &&& forall|j: int| 0 <= j < v.len() ==> v[j] != '\n'
    &&& v.len() > 0 ==> v.last() != '\r'
}

/// A text without a newline in it.
pub open spec fn no_newline(v: Seq<char>) -> bool {
    forall|j: int| 0 <= j < v.len() ==> v[j] != '\n'
}

/// The characters held by an optional vector.
pub open spec fn opt_chars(v: Option<Vec<char>>) -> Option<Seq<char>> {
    match v {
        Some(x) => Some(x@),
        None => None,
    }
}

/// Whether two character sequences are equal.
pub fn chars_equal(a: &[char], b: &[char]) -> (r: bool)
    ensures
        r == (a@ == b@),
{
    if a.len() != b.len() {
        return false;
    }
    let r = chars_start_with(a, b);
    proof {
        assert(a@.subrange(0, b@.len() as int) =~= a@);
    }
    r
}

/// The characters of `s` from `from` to `to`.
pub fn chars_range(s: &[char], from: usize, to: usize) -> (r: Vec<char>)
    requires
        from <= to <= s.len(),
    ensures
        r@ == s@.subrange(from as int, to as int),
{
    let mut out: Vec<char> = Vec::new();
    let mut i = from;
    while i < to
        invariant
            from <= i <= to,
            to <= s.len(),
            out@ == s@.subrange(from as int, i as int),
        decreases to - i,
    {
        out.push(s[i]);
        assert(s@.subrange(from as int, i + 1) =~= s@.subrange(from as int, i as int).push(
            s@[i as int],
        ));
        i = i + 1;
    }
    out
}

/// Splits a line at its first `": "`.
pub fn split_key_chars(line: &[char]) -> (r: Option<(Vec<char>, Vec<char>)>)
    ensures
        r matches Some(kv) ==> split_key(line@) == Some((kv.0@, kv.1@)),
        r is None ==> split_key(line@) is None,
{
    let sep = chars_of(": ");
    proof {
        reveal_strlit(": ");
        assert(sep@ =~= seq![':', ' ']);
        lemma_first_occurrence_from(line@, sep@, 0);
    }
    match find_chars(line, sep.as_slice(), 0) {
        Some(i) => {
            assert(occurs_at(line@, sep@, i as int));
            assert(sep@.len() == 2);
            assert(i + 2 <= line@.len());
            let k = chars_range(line, 0, i);
            let v = chars_range(line, i + 2, line.len());
            Some((k, v))
        },
        None => None,
    }
}

/// The value of `line` for `key`, or else `best`.
fn consider_line(line: &[char], key: &[char], best: Option<Vec<char>>) -> (r: Option<Vec<char>>)
    ensures
        opt_chars(r) == (match line_value(line@, key@) {
            Some(v) => Some(v),
            None => opt_chars(best),
        }),
{
    match split_key_chars(line) {
        Some(kv) => {
            if chars_equal(kv.0.as_slice(), key) {
                Some(kv.1)
            } else {
                best
            }
        },
        None => best,
    }
}

pub proof fn lemma_lookup_push(lines: Seq<Seq<char>>, l: Seq<char>, key: Seq<char>)
    ensures
        lookup_line(lines.push(l), key) == (match line_value(l, key) {
            Some(v) => Some(v),
            None => lookup_line(lines, key),
        }),
{
    assert(lines.push(l).drop_last() =~= lines);
}

/// The value that a text gives to the footer `key`.
pub fn footer_value_chars(s: &[char], key: &[char]) -> (r: Option<Vec<char>>)
    ensures
        opt_chars(r) == footer_value(s@, key@),
{
    let mut best: Option<Vec<char>> = None;
    let mut cur: Vec<char> = Vec::new();
    let ghost mut done: Seq<Seq<char>> = Seq::empty();
    let mut i: usize = 0;
    assert(s@.skip(0) =~= s@);
    while i < s.len()
        invariant
            i <= s.len(),
            text_lines(s@) == done + lines_from(s@.skip(i as int), cur@),
            opt_chars(best) == lookup_line(done, key@),
        decreases s.len() - i,
    {
        let c = s[i];
        assert(s@.skip(i as int).drop_first() =~= s@.skip(i + 1));
        if c == '\n' {
            if cur.len() > 0 && cur[cur.len() - 1] == '\r' {
                cur.pop();
            }
            proof {
                lemma_lookup_push(done, cur@, key@);
            }
            best = consider_line(cur.as_slice(), key, best);
            proof {
                assert(done.push(cur@) + lines_from(s@.skip(i + 1), Seq::empty()) =~= done + (
                seq![cur@] + lines_from(s@.skip(i + 1), Seq::empty())));
                done = done.push(cur@);
            }
            cur = Vec::new();
        } else {
            cur.push(c);
        }
        i = i + 1;
    }
    if cur.len() > 0 {
        proof {
            lemma_lookup_push(done, cur@, key@);
            assert(done + seq![cur@] =~= done.push(cur@));
        }
        best = consider_line(cur.as_slice(), key, best);
    } else {
        assert(done + Seq::<Seq<char>>::empty() =~= done);
    }
    best
}

/// Splitting at a `\n` that ends the first part: the lines of the whole are those of the
/// parts.
pub proof fn lemma_lines_from_concat(a: Seq<char>, b: Seq<char>, cur: Seq<char>)
    requires
        a.len() > 0,
        a.last() == '\n',
    ensures
        lines_from(a + b, cur) == lines_from(a, cur) + lines_from(b, Seq::empty()),
    decreases a.len(),
{
    assert((a + b).drop_first() =~= a.drop_first() + b);
    if a.len() == 1 {
        assert(a.drop_first() + b =~= b);
        assert(lines_from(a.drop_first(), Seq::empty()) =~= Seq::<Seq<char>>::empty());
        assert(seq![strip_cr(cur)] + Seq::<Seq<char>>::empty() =~= seq![strip_cr(cur)]);
    } else {
        lemma_lines_from_concat(a.drop_first(), b, if a[0] == '\n' {
            Seq::empty()
        } else {
            cur.push(a[0])
        });
        if a[0] == '\n' {
            assert(seq![strip_cr(cur)] + (lines_from(a.drop_first(), Seq::empty()) + lines_from(
                b,
                Seq::empty(),
            )) =~= seq![strip_cr(cur)] + lines_from(a.drop_first(), Seq::empty()) + lines_from(
                b,
                Seq::empty(),
            ));
        }
    }
}

/// The lines of a text that ends with `\n`, followed by more text.
pub proof fn lemma_text_lines_concat(a: Seq<char>, b: Seq<char>)
    requires
        a.len() > 0,
        a.last() == '\n',
    ensures
        text_lines(a + b) == text_lines(a) + text_lines(b),
{
    lemma_lines_from_concat(a, b, Seq::empty());
}

/// A line without `\n`, ended by one.
pub proof fn lemma_single_line(x: Seq<char>, cur: Seq<char>)
    requires
        forall|j: int| 0 <= j < x.len() ==> x[j] != '\n',
    ensures
        lines_from(x.push('\n'), cur) == seq![strip_cr(cur + x)],
    decreases x.len(),
{
    if x.len() == 0 {
        assert(cur + x =~= cur);
        assert(x.push('\n').drop_first() =~= Seq::<char>::empty());
        assert(lines_from(Seq::<char>::empty(), Seq::empty()) =~= Seq::<Seq<char>>::empty());
        assert(seq![strip_cr(cur)] + Seq::<Seq<char>>::empty() =~= seq![strip_cr(cur)]);
    } else {
        assert(x.push('\n').drop_first() =~= x.drop_first().push('\n'));
        lemma_single_line(x.drop_first(), cur.push(x[0]));
        assert(cur.push(x[0]) + x.drop_first() =~= cur + x);
    }
}

/// The last line with a key wins over the lines before it.
pub proof fn lemma_lookup_concat(l1: Seq<Seq<char>>, l2: Seq<Seq<char>>, key: Seq<char>)
    ensures
        lookup_line(l1 + l2, key) == (match lookup_line(l2, key) {
            Some(v) => Some(v),
            None => lookup_line(l1, key),
        }),
    decreases l2.len(),
{
    if l2.len() == 0 {
        assert(l1 + l2 =~= l1);
    } else {
        assert((l1 + l2).drop_last() =~= l1 + l2.drop_last());
        assert((l1 + l2).last() == l2.last());
        lemma_lookup_concat(l1, l2.drop_last(), key);
    }
}

/// A footer line `key: value` splits back into its key and value when the key has no `:`.
pub proof fn lemma_split_footer(key: Seq<char>, value: Seq<char>)
    requires
        forall|j: int| 0 <= j < key.len() ==> key[j] != ':',
    ensures
        split_key(key + seq![':', ' '] + value) == Some((key, value)),
{
    let line = key + seq![':', ' '] + value;
    let sep = seq![':', ' '];
    let k = key.len() as int;
    assert(line.subrange(k, k + 2) =~= sep);
    lemma_first_occurrence_from(line, sep, 0);
    match first_occurrence_from(line, sep, 0) {
        Some(i) => {
            if i < k {
                assert(line.subrange(i, i + 2)[0] == line[i]);
                assert(line[i] == key[i]);
            }
            if i > k {
                assert(occurs_at(line, sep, k));
            }
        },
        None => {
            assert(occurs_at(line, sep, k));
        },
    }
    assert(line.take(k) =~= key);
    assert(line.skip(k + 2) =~= value);
}

/// Appending a footer line to a text that ends with a newline sets that footer and leaves
/// the others as they were.
pub proof fn lemma_append_footer(m: Seq<char>, k: Seq<char>, v: Seq<char>)
    requires
        m.len() > 0,
        m.last() == '\n',
        plain_key(k),
        single_line(v),
    ensures
        (m + footer_line(k, v)).len() > 0,
        (m + footer_line(k, v)).last() == '\n',
        forall|key: Seq<char>|
            #[trigger] footer_value(m + footer_line(k, v), key) == (if key == k {
                Some(v)
            } else {
                footer_value(m, key)
            }),
{
    let x = k + seq![':', ' '] + v;
    assert(footer_line(k, v) =~= x.push('\n'));
    assert forall|j: int| 0 <= j < x.len() implies x[j] != '\n' by {
        if j < k.len() {
            assert(x[j] == k[j]);
        } else if j >= k.len() + 2 {
            assert(x[j] == v[j - k.len() - 2]);
        }
    }
    lemma_text_lines_concat(m, footer_line(k, v));
    lemma_single_line(x, Seq::empty());
    assert(Seq::<char>::empty() + x =~= x);
    if v.len() > 0 {
        assert(x.last() == v.last());
    }
    assert(strip_cr(x) == x);
    assert(text_lines(m + footer_line(k, v)) =~= text_lines(m).push(x));
    lemma_split_footer(k, v);
    assert forall|key: Seq<char>|
        #[trigger] footer_value(m + footer_line(k, v), key) == (if key == k {
            Some(v)
        } else {
            footer_value(m, key)
        }) by {
        lemma_lookup_push(text_lines(m), x, key);
    }
}

/// Appending a footer line whose value has no newline (it may end in a carriage return) to
/// a text that ends with a newline leaves every other footer as it was.
pub proof fn lemma_append_other_footer(m: Seq<char>, k: Seq<char>, v: Seq<char>)
    requires
        m.len() > 0,
        m.last() == '\n',
        plain_key(k),
        no_newline(v),
    ensures
        (m + footer_line(k, v)).len() > 0,
        (m + footer_line(k, v)).last() == '\n',
        forall|key: Seq<char>|
            key != k ==> #[trigger] footer_value(m + footer_line(k, v), key) == footer_value(m, key),
{
    let x = k + seq![':', ' '] + v;
    assert(footer_line(k, v) =~= x.push('\n'));
    assert forall|j: int| 0 <= j < x.len() implies x[j] != '\n' by {
        if j < k.len() {
            assert(x[j] == k[j]);
        } else if j >= k.len() + 2 {
            assert(x[j] == v[j - k.len() - 2]);
        }
    }
    lemma_text_lines_concat(m, footer_line(k, v));
    lemma_single_line(x, Seq::empty());
    assert(Seq::<char>::empty() + x =~= x);
    let sv = strip_cr(v);
    if v.len() > 0 {
        assert(x.last() == v.last());
        if v.last() == '\r' {
            assert(strip_cr(x) =~= k + seq![':', ' '] + sv);
        } else {
            assert(strip_cr(x) == x);
        }
    } else {
        assert(strip_cr(x) == x);
        assert(sv == v);
    }
    assert(strip_cr(x) == k + seq![':', ' '] + sv);
    assert(text_lines(m + footer_line(k, v)) =~= text_lines(m).push(strip_cr(x)));
    assert forall|j: int| 0 <= j < k.len() implies k[j] != ':' by {}
    lemma_split_footer(k, sv);
    assert forall|key: Seq<char>| key != k implies #[trigger] footer_value(m + footer_line(k, v), key)
        == footer_value(m, key) by {
        lemma_lookup_push(text_lines(m), strip_cr(x), key);
    }
}

} // verus!
