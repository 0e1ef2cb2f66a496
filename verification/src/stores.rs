//! Where the machine-local runtime state of a stream lives, as byte paths.
use base64::Engine;
use vstd::prelude::*;
use vstd::utf8::{decode_utf8, encode_utf8};

verus! {

/// `comp` appended to `base` as `Path::join` does on Unix: an absolute component replaces
/// the base; otherwise a `/` separates them unless the base is empty or already ends in one.
pub open spec fn spec_join(base: Seq<u8>, comp: Seq<u8>) -> Seq<u8> {
    if comp.len() > 0 && comp[0] == 47u8 {
        comp
    } else if base.len() > 0 && base.last() != 47u8 {
        base + seq![47u8] + comp
    } else {
        base + comp
    }
}

fn append_bytes(out: &mut Vec<u8>, b: &[u8])
    ensures
        final(out)@ == old(out)@ + b@,
{
    let mut i: usize = 0;
    while i < b.len()
        invariant
            i <= b.len(),
            out@ == old(out)@ + b@.take(i as int),
        decreases b.len() - i,
    {
        out.push(b[i]);
        assert(b@.take(i + 1) =~= b@.take(i as int).push(b@[i as int]));
        i = i + 1;
    }
    assert(b@.take(b@.len() as int) =~= b@);
}

/// Joins a path component to a path.
pub fn join(base: &[u8], comp: &[u8]) -> (r: Vec<u8>)
    ensures
        r@ == spec_join(base@, comp@),
{
    let mut r: Vec<u8> = Vec::new();
    if comp.len() > 0 && comp[0] == 47u8 {
        append_bytes(&mut r, comp);
        assert(r@ =~= comp@);
        return r;
    }
    append_bytes(&mut r, base);
    if base.len() > 0 && base[base.len() - 1] != 47u8 {
        r.push(47u8);
    }
    append_bytes(&mut r, comp);
    assert(r@ =~= spec_join(base@, comp@));
    r
}

/// Joins a string component to a path.
pub fn join_str(base: &[u8], comp: &str) -> (r: Vec<u8>)
    ensures
        r@ == spec_join(base@, encode_utf8(comp@)),
{
    join(base, comp.as_bytes())
}

/// Whether BASE64 of `n` bytes without padding has a length that fits in `usize`.
pub open spec fn base64_fits(n: nat) -> bool {
    let tail: int = if n % 3 == 0 {
        0
    } else if n % 3 == 1 {
        2
    } else {
        3
    };
    (n / 3) * 4 + tail <= usize::MAX
}


/// A character of the URL-safe BASE64 alphabet: letters, digits, `-` and `_`.
pub open spec fn url_safe_char(c: char) -> bool {
    ('A' <= c <= 'Z') || ('a' <= c <= 'z') || ('0' <= c <= '9') || c == '-' || c == '_'
}

/// The character of a 6-bit value in the URL-safe BASE64 alphabet (RFC 4648, section 5):
/// `A`-`Z`, `a`-`z`, `0`-`9`, `-`, `_`.
pub open spec fn b64_char(v: int) -> char {
    if v < 26 {
        (65 + v) as char
    } else if v < 52 {
        (97 + (v - 26)) as char
    } else if v < 62 {
        (48 + (v - 52)) as char
    } else if v == 62 {
        '-'
    } else {
        '_'
    }
}

/// URL-safe BASE64 without padding: each group of three bytes becomes four characters, a
/// last group of one byte two characters, of two bytes three.
pub open spec fn base64_url_no_pad(b: Seq<u8>) -> Seq<char>
    decreases b.len(),
{
    if b.len() == 0 {
        Seq::empty()
    } else if b.len() == 1 {
        seq![b64_char(b[0] as int / 4), b64_char((b[0] as int % 4) * 16)]
    } else if b.len() == 2 {
        seq![
            b64_char(b[0] as int / 4),
            b64_char((b[0] as int % 4) * 16 + b[1] as int / 16),
            b64_char((b[1] as int % 16) * 4),
        ]
    } else {
        seq![
            b64_char(b[0] as int / 4),
            b64_char((b[0] as int % 4) * 16 + b[1] as int / 16),
            b64_char((b[1] as int % 16) * 4 + b[2] as int / 64),
            b64_char(b[2] as int % 64),
        ] + base64_url_no_pad(b.subrange(3, b.len() as int))
    }
}

/// Each character of the alphabet stands for one value.
proof fn lemma_b64_char(u: int, v: int)
    requires
        0 <= u < 64,
        0 <= v < 64,
    ensures
        url_safe_char(b64_char(u)),
        b64_char(u) == b64_char(v) ==> u == v,
{
    let cu = b64_char(u);
    let cv = b64_char(v);
    if u < 26 { assert(cu as int == 65 + u); }
    else if u < 52 { assert(cu as int == 97 + (u - 26)); }
    else if u < 62 { assert(cu as int == 48 + (u - 52)); }
    if v < 26 { assert(cv as int == 65 + v); }
    else if v < 52 { assert(cv as int == 97 + (v - 26)); }
    else if v < 62 { assert(cv as int == 48 + (v - 52)); }
}

/// The encoding is written in the URL-safe alphabet only.
pub proof fn lemma_base64_alphabet(b: Seq<u8>)
    ensures
        forall|i: int| 0 <= i < base64_url_no_pad(b).len() ==> url_safe_char(#[trigger] base64_url_no_pad(b)[i]),
    decreases b.len(),
{
    let e = base64_url_no_pad(b);
    if b.len() >= 3 {
        lemma_base64_alphabet(b.subrange(3, b.len() as int));
    }
    assert forall|i: int| 0 <= i < e.len() implies url_safe_char(#[trigger] e[i]) by {
        if b.len() >= 1 {
            lemma_b64_char(b[0] as int / 4, 0);
            if b.len() == 1 {
                lemma_b64_char((b[0] as int % 4) * 16, 0);
            } else {
                lemma_b64_char((b[0] as int % 4) * 16 + b[1] as int / 16, 0);
                if b.len() == 2 {
                    lemma_b64_char((b[1] as int % 16) * 4, 0);
                } else {
                    lemma_b64_char((b[1] as int % 16) * 4 + b[2] as int / 64, 0);
                    lemma_b64_char(b[2] as int % 64, 0);
                    if i >= 4 {
                        assert(e[i] == base64_url_no_pad(b.subrange(3, b.len() as int))[i - 4]);
                    }
                }
            }
        }
    }
}

/// The length of the encoding of `n` bytes.
proof fn lemma_base64_len(b: Seq<u8>)
    ensures
        base64_url_no_pad(b).len() == (b.len() / 3) * 4 + (if b.len() % 3 == 0 {
            0int
        } else if b.len() % 3 == 1 {
            2
        } else {
            3
        }),
    decreases b.len(),
{
    if b.len() >= 3 {
        lemma_base64_len(b.subrange(3, b.len() as int));
    }
}

/// A value written as `k * p + q` with `0 <= q < k` gives back `p` and `q`.
proof fn lemma_split_digits(k: int, p: int, q: int, p2: int, q2: int)
    requires
        k > 0,
        0 <= q < k,
        0 <= q2 < k,
        k * p + q == k * p2 + q2,
    ensures
        p == p2,
        q == q2,
{
    assert(k * (p - p2) == q2 - q) by (nonlinear_arith)
        requires
            k * p + q == k * p2 + q2,
    ;
    if p > p2 {
        assert(k * (p - p2) >= k) by (nonlinear_arith)
            requires
                p - p2 >= 1,
                k > 0,
        ;
    } else if p < p2 {
        assert(k * (p2 - p) >= k) by (nonlinear_arith)
            requires
                p2 - p >= 1,
                k > 0,
        ;
        assert(k * (p - p2) == -(k * (p2 - p))) by (nonlinear_arith);
    }
}

/// Distinct byte strings have distinct encodings.
pub proof fn lemma_base64_injective(a: Seq<u8>, b: Seq<u8>)
    requires
        base64_url_no_pad(a) == base64_url_no_pad(b),
    ensures
        a == b,
    decreases a.len(),
{
    let ea = base64_url_no_pad(a);
    lemma_base64_len(a);
    lemma_base64_len(b);
    assert(a.len() == b.len());
    if a.len() == 0 {
        assert(a =~= b);
        return;
    }
    assert(ea[0] == base64_url_no_pad(b)[0]);
    assert(ea[0] == b64_char(a[0] as int / 4));
    assert(base64_url_no_pad(b)[0] == b64_char(b[0] as int / 4));
    lemma_b64_char(a[0] as int / 4, b[0] as int / 4);
    assert(a[0] as int == 4 * (a[0] as int / 4) + a[0] as int % 4);
    assert(b[0] as int == 4 * (b[0] as int / 4) + b[0] as int % 4);
    if a.len() == 1 {
        lemma_b64_char((a[0] as int % 4) * 16, (b[0] as int % 4) * 16);
        assert(ea[1] == base64_url_no_pad(b)[1]);
        assert(a =~= b);
        return;
    }
    assert(ea[1] == base64_url_no_pad(b)[1]);
    let second_a = (a[0] as int % 4) * 16 + a[1] as int / 16;
    let second_b = (b[0] as int % 4) * 16 + b[1] as int / 16;
    if a.len() == 2 {
        assert(ea[1] == b64_char(second_a));
        assert(base64_url_no_pad(b)[1] == b64_char(second_b));
    } else {
        assert(ea[1] == b64_char(second_a));
        assert(base64_url_no_pad(b)[1] == b64_char(second_b));
    }
    lemma_b64_char(second_a, second_b);
    assert(0 <= a[1] as int / 16 < 16 && 0 <= b[1] as int / 16 < 16);
    assert((a[0] as int % 4) * 16 == 16 * (a[0] as int % 4) && (b[0] as int % 4) * 16 == 16 * (b[0] as int % 4));
    lemma_split_digits(16, a[0] as int % 4, a[1] as int / 16, b[0] as int % 4, b[1] as int / 16);
    assert(a[0] == b[0]);
    if a.len() == 2 {
        assert(ea[2] == base64_url_no_pad(b)[2]);
        lemma_b64_char((a[1] as int % 16) * 4, (b[1] as int % 16) * 4);
        assert(a =~= b);
        return;
    }
    assert(ea[2] == base64_url_no_pad(b)[2]);
    assert(ea[3] == base64_url_no_pad(b)[3]);
    assert(ea[2] == b64_char((a[1] as int % 16) * 4 + a[2] as int / 64));
    assert(base64_url_no_pad(b)[2] == b64_char((b[1] as int % 16) * 4 + b[2] as int / 64));
    assert(ea[3] == b64_char(a[2] as int % 64));
    assert(base64_url_no_pad(b)[3] == b64_char(b[2] as int % 64));
    assert(a[1] as int == 16 * (a[1] as int / 16) + a[1] as int % 16);
    assert(b[1] as int == 16 * (b[1] as int / 16) + b[1] as int % 16);
    assert(a[2] as int == 64 * (a[2] as int / 64) + a[2] as int % 64);
    assert(b[2] as int == 64 * (b[2] as int / 64) + b[2] as int % 64);
    lemma_b64_char((a[1] as int % 16) * 4 + a[2] as int / 64, (b[1] as int % 16) * 4 + b[2] as int / 64);
    lemma_b64_char(a[2] as int % 64, b[2] as int % 64);
    assert(0 <= a[2] as int / 64 < 4 && 0 <= b[2] as int / 64 < 4);
    assert((a[1] as int % 16) * 4 == 4 * (a[1] as int % 16) && (b[1] as int % 16) * 4 == 4 * (b[1] as int % 16));
    lemma_split_digits(4, a[1] as int % 16, a[2] as int / 64, b[1] as int % 16, b[2] as int / 64);
    assert(a[1] == b[1]);
    assert(a[2] == b[2]);
    let ra = a.subrange(3, a.len() as int);
    let rb = b.subrange(3, b.len() as int);
    assert(base64_url_no_pad(ra) =~= ea.subrange(4, ea.len() as int));
    assert(base64_url_no_pad(rb) =~= base64_url_no_pad(b).subrange(4, ea.len() as int));
    lemma_base64_injective(ra, rb);
    assert(a =~= b) by {
        assert forall|i: int| 0 <= i < a.len() implies a[i] == b[i] by {
            if i >= 3 {
                assert(a[i] == ra[i - 3] && b[i] == rb[i - 3]);
            }
        }
    }
}

/// The 6-bit value of a character of the URL-safe BASE64 alphabet.
pub open spec fn b64_value(c: char) -> int {
    if 'A' <= c && c <= 'Z' {
        c as int - 65
    } else if 'a' <= c && c <= 'z' {
        c as int - 97 + 26
    } else if '0' <= c && c <= '9' {
        c as int - 48 + 52
    } else if c == '-' {
        62
    } else {
        63
    }
}

/// URL-safe BASE64 without padding, read back: each group of four characters gives three
/// bytes, a last group of two characters one byte, of three characters two.
pub open spec fn base64_url_decode(t: Seq<char>) -> Seq<u8>
    decreases t.len(),
{
    if t.len() < 2 {
        Seq::empty()
    } else if t.len() == 2 {
        seq![(b64_value(t[0]) * 4 + b64_value(t[1]) / 16) as u8]
    } else if t.len() == 3 {
        seq![
            (b64_value(t[0]) * 4 + b64_value(t[1]) / 16) as u8,
            ((b64_value(t[1]) % 16) * 16 + b64_value(t[2]) / 4) as u8,
        ]
    } else {
        seq![
            (b64_value(t[0]) * 4 + b64_value(t[1]) / 16) as u8,
            ((b64_value(t[1]) % 16) * 16 + b64_value(t[2]) / 4) as u8,
            ((b64_value(t[2]) % 4) * 64 + b64_value(t[3])) as u8,
        ] + base64_url_decode(t.subrange(4, t.len() as int))
    }
}

/// A character of the alphabet reads back as its value.
proof fn lemma_b64_value(v: int)
    requires
        0 <= v < 64,
    ensures
        b64_value(b64_char(v)) == v,
{
    let c = b64_char(v);
    if v < 26 {
        assert(c as int == 65 + v);
    } else if v < 52 {
        assert(c as int == 97 + (v - 26));
    } else if v < 62 {
        assert(c as int == 48 + (v - 52));
    }
}

/// The three bytes of a group come back from its four 6-bit values.
proof fn lemma_group_values(b0: int, b1: int, b2: int)
    requires
        0 <= b0 < 256,
        0 <= b1 < 256,
        0 <= b2 < 256,
    ensures
        ({
            let v0 = b0 / 4;
            let v1 = (b0 % 4) * 16 + b1 / 16;
            let v2 = (b1 % 16) * 4 + b2 / 64;
            let v3 = b2 % 64;
            &&& 0 <= v0 < 64 && 0 <= v1 < 64 && 0 <= v2 < 64 && 0 <= v3 < 64
            &&& v0 * 4 + v1 / 16 == b0
            &&& (v1 % 16) * 16 + v2 / 4 == b1
            &&& (v2 % 4) * 64 + v3 == b2
            &&& ((b0 % 4) * 16) / 16 == b0 % 4
            &&& ((b1 % 16) * 4) / 4 == b1 % 16
        }),
{
    let v1 = (b0 % 4) * 16 + b1 / 16;
    let v2 = (b1 % 16) * 4 + b2 / 64;
    vstd::arithmetic::div_mod::lemma_fundamental_div_mod_converse(v1, 16, b0 % 4, b1 / 16);
    vstd::arithmetic::div_mod::lemma_fundamental_div_mod_converse(v2, 4, b1 % 16, b2 / 64);
    vstd::arithmetic::div_mod::lemma_fundamental_div_mod_converse((b0 % 4) * 16, 16, b0 % 4, 0);
    vstd::arithmetic::div_mod::lemma_fundamental_div_mod_converse((b1 % 16) * 4, 4, b1 % 16, 0);
    assert(b0 == (b0 / 4) * 4 + b0 % 4);
    assert(b1 == (b1 / 16) * 16 + b1 % 16);
    assert(b2 == (b2 / 64) * 64 + b2 % 64);
}

/// Decoding gives back the encoded bytes.
pub proof fn lemma_base64_round_trip(b: Seq<u8>)
    ensures
        base64_url_decode(base64_url_no_pad(b)) == b,
    decreases b.len(),
{
    let e = base64_url_no_pad(b);
    if b.len() == 0 {
        assert(e.len() == 0);
        assert(base64_url_decode(e) =~= b);
        return;
    }
    let b0 = b[0] as int;
    if b.len() == 1 {
        lemma_group_values(b0, 0, 0);
        lemma_b64_value(b0 / 4);
        lemma_b64_value((b0 % 4) * 16);
        assert(e.len() == 2);
        assert(base64_url_decode(e) =~= b);
        return;
    }
    let b1 = b[1] as int;
    if b.len() == 2 {
        lemma_group_values(b0, b1, 0);
        lemma_b64_value(b0 / 4);
        lemma_b64_value((b0 % 4) * 16 + b1 / 16);
        lemma_b64_value((b1 % 16) * 4);
        assert(e.len() == 3);
        assert(base64_url_decode(e) =~= b);
        return;
    }
    let b2 = b[2] as int;
    lemma_group_values(b0, b1, b2);
    lemma_b64_value(b0 / 4);
    lemma_b64_value((b0 % 4) * 16 + b1 / 16);
    lemma_b64_value((b1 % 16) * 4 + b2 / 64);
    lemma_b64_value(b2 % 64);
    let rest = b.subrange(3, b.len() as int);
    lemma_base64_round_trip(rest);
    lemma_base64_len(rest);
    lemma_base64_len(b);
    let er = base64_url_no_pad(rest);
    assert(e.len() >= 4);
    assert(e.subrange(4, e.len() as int) =~= er);
    assert(base64_url_decode(e) =~= b);
}

/// A runtime key read back: the UTF-8 text of the BASE64 after `k-`.
pub open spec fn decode_runtime_key(key: Seq<char>) -> Seq<char> {
    decode_utf8(base64_url_decode(key.subrange(2, key.len() as int)))
}

/// Every runtime key reads back as the id it was made from.
pub proof fn law_runtime_key_reads_back(id: Seq<char>)
    ensures
        decode_runtime_key(spec_runtime_key(id)) == id,
{
    reveal_strlit("k-");
    let k = spec_runtime_key(id);
    assert(k.subrange(2, k.len() as int) =~= base64_url_no_pad(encode_utf8(id)));
    lemma_base64_round_trip(encode_utf8(id));
    vstd::utf8::encode_utf8_decode_utf8(id);
}

/// A runtime key is one path component (it starts with `k-`, so it is neither `.` nor `..`,
/// and holds no `/`), and distinct ids get distinct keys.
pub proof fn law_runtime_keys_are_distinct_components(a: Seq<char>, b: Seq<char>)
    ensures
        spec_runtime_key(a).len() >= 2 && spec_runtime_key(a)[0] == 'k' && spec_runtime_key(a)[1] == '-',
        forall|i: int| 0 <= i < spec_runtime_key(a).len() ==> #[trigger] spec_runtime_key(a)[i] != '/',
        a != b ==> spec_runtime_key(a) != spec_runtime_key(b),
{
    reveal_strlit("k-");
    let e = base64_url_no_pad(encode_utf8(a));
    lemma_base64_alphabet(encode_utf8(a));
    assert forall|i: int| 0 <= i < spec_runtime_key(a).len() implies #[trigger] spec_runtime_key(a)[i] != '/' by {
        if i >= 2 {
            assert(spec_runtime_key(a)[i] == e[i - 2]);
            assert(url_safe_char(e[i - 2]));
        }
    }
    if spec_runtime_key(a) == spec_runtime_key(b) {
        assert(base64_url_no_pad(encode_utf8(a)) =~= spec_runtime_key(a).subrange(2, spec_runtime_key(a).len() as int));
        assert(base64_url_no_pad(encode_utf8(b)) =~= spec_runtime_key(b).subrange(2, spec_runtime_key(b).len() as int));
        lemma_base64_injective(encode_utf8(a), encode_utf8(b));
        vstd::utf8::encode_utf8_decode_utf8(a);
        vstd::utf8::encode_utf8_decode_utf8(b);
    }
}

/// `base64::engine::general_purpose::URL_SAFE_NO_PAD.encode`: the URL-safe BASE64 text of
/// the bytes, without padding. It panics when the length of that text overflows `usize`,
/// which the `requires` rules out.
#[verifier::external_body]
fn encode_base64_url(bytes: &[u8]) -> (r: String)
    requires
        base64_fits(bytes@.len()),
    ensures
        r@ == base64_url_no_pad(bytes@),
{
    base64::engine::general_purpose::URL_SAFE_NO_PAD.encode(bytes)
}

/// The file-name form of a runtime key: `k-` and the key's UTF-8 bytes in URL-safe BASE64.
pub open spec fn spec_runtime_key(value: Seq<char>) -> Seq<char> {
    "k-"@ + base64_url_no_pad(encode_utf8(value))
}

/// Encodes a session or turn id for use as a file name.
/// The key is one path component of its own: it starts with `k-` and no character of it is
/// a `/`.
pub fn encode_runtime_key(value: &str) -> (r: String)
    requires
        base64_fits(encode_utf8(value@).len()),
    ensures
        r@ == spec_runtime_key(value@),
        r@.len() >= 2 && r@[0] == 'k' && r@[1] == '-',
        forall|i: int| 0 <= i < r@.len() ==> r@[i] != '/',
{
    let encoded = encode_base64_url(value.as_bytes());
    let mut r = String::from_str("k-");
    crate::text::push_str(&mut r, encoded.as_str());
    proof {
        reveal_strlit("k-");
        law_runtime_keys_are_distinct_components(value@, value@);
    }
    r
}

/// The runtime directory of a repository and the fixed paths under it.
#[derive(Debug, Clone)]
pub struct RuntimeLayout {
    pub root: Vec<u8>,
    pub local_config_path: Vec<u8>,
    pub streams_root: Vec<u8>,
    pub lock_path: Vec<u8>,
}

/// The layout of a runtime directory.
pub open spec fn is_layout(l: RuntimeLayout, root: Seq<u8>) -> bool {
    &&& l.root@ == root
    &&& l.local_config_path@ == spec_join(root, encode_utf8("local.toml"@))
    &&& l.streams_root@ == spec_join(root, encode_utf8("streams"@))
    &&& l.lock_path@ == spec_join(root, encode_utf8("checkpoint.lock"@))
}

impl RuntimeLayout {
    /// The layout under a runtime root (Git's `sprocket` path of the repository).
    pub fn from_root(root: Vec<u8>) -> (l: Self)
        ensures
            is_layout(l, root@),
    {
        let local_config_path = join_str(root.as_slice(), "local.toml");
        let streams_root = join_str(root.as_slice(), "streams");
        let lock_path = join_str(root.as_slice(), "checkpoint.lock");
        RuntimeLayout { root, local_config_path, streams_root, lock_path }
    }

    /// The directory of one stream.
    pub fn stream_root(&self, stream_id: &str) -> (r: Vec<u8>)
        ensures
            r@ == spec_join(self.streams_root@, encode_utf8(stream_id@)),
    {
        join_str(self.streams_root.as_slice(), stream_id)
    }
}

/// Where the manager state of a stream is kept.
#[derive(Debug, Clone)]
pub struct ManagerStore {
    pub path: Vec<u8>,
}

impl ManagerStore {
    /// The manager store of a stream directory.
    pub fn new(stream_root: &[u8]) -> (s: Self)
        ensures
            s.path@ == spec_join(stream_root@, encode_utf8("manager.json"@)),
    {
        ManagerStore { path: join_str(stream_root, "manager.json") }
    }
}

/// Where turns are kept: one directory per session, under the runtime directory.
#[derive(Debug, Clone)]
pub struct TurnStore {
    pub root: Vec<u8>,
}

/// A runtime key with `.json` after it, as a file name.
pub open spec fn json_file_name(key: Seq<char>) -> Seq<u8> {
    encode_utf8(spec_runtime_key(key) + ".json"@)
}

fn json_file(key: &str) -> (r: String)
    requires
        base64_fits(encode_utf8(key@).len()),
    ensures
        r@ == spec_runtime_key(key@) + ".json"@,
{
    let mut r = encode_runtime_key(key);
    crate::text::push_str(&mut r, ".json");
    r
}

impl TurnStore {
    /// The turn store of a runtime directory.
    pub fn new(runtime_root: &[u8]) -> (s: Self)
        ensures
            s.root@ == spec_join(runtime_root@, encode_utf8("turns"@)),
    {
        TurnStore { root: join_str(runtime_root, "turns") }
    }

    /// The directory of a session's turns.
    pub fn session_dir(&self, session_id: &str) -> (r: Vec<u8>)
        requires
            base64_fits(encode_utf8(session_id@).len()),
        ensures
            r@ == spec_join(self.root@, encode_utf8(spec_runtime_key(session_id@))),
    {
        let key = encode_runtime_key(session_id);
        join_str(self.root.as_slice(), key.as_str())
    }

    /// The file of one turn.
    pub fn path(&self, session_id: &str, turn_id: &str) -> (r: Vec<u8>)
        requires
            base64_fits(encode_utf8(session_id@).len()),
            base64_fits(encode_utf8(turn_id@).len()),
        ensures
            r@ == spec_join(
                spec_join(self.root@, encode_utf8(spec_runtime_key(session_id@))),
                json_file_name(turn_id@),
            ),
    {
        let dir = self.session_dir(session_id);
        let file = json_file(turn_id);
        join_str(dir.as_slice(), file.as_str())
    }
}

/// Where the session records of a stream are kept.
#[derive(Debug, Clone)]
pub struct SessionStore {
    pub root: Vec<u8>,
}

impl SessionStore {
    /// The session store of a stream directory.
    pub fn new(stream_root: &[u8]) -> (s: Self)
        ensures
            s.root@ == spec_join(stream_root@, encode_utf8("sessions"@)),
    {
        SessionStore { root: join_str(stream_root, "sessions") }
    }

    /// The file of one session.
    pub fn path(&self, session_id: &str) -> (r: Vec<u8>)
        requires
            base64_fits(encode_utf8(session_id@).len()),
        ensures
            r@ == spec_join(self.root@, json_file_name(session_id@)),
    {
        let file = json_file(session_id);
        join_str(self.root.as_slice(), file.as_str())
    }
}

/// Where the manifests of a stream are kept, compressed, by manifest id.
#[derive(Debug, Clone)]
pub struct ManifestStore {
    pub root: Vec<u8>,
}

impl ManifestStore {
    /// The manifest store of a stream directory.
    pub fn new(stream_root: &[u8]) -> (s: Self)
        ensures
            s.root@ == spec_join(stream_root@, encode_utf8("manifests"@)),
    {
        ManifestStore { root: join_str(stream_root, "manifests") }
    }

    /// The file of one manifest.
    pub fn path(&self, manifest_id: &str) -> (r: Vec<u8>)
        ensures
            r@ == spec_join(self.root@, encode_utf8(manifest_id@ + ".json.zst"@)),
    {
        let mut file = manifest_id.to_string();
        crate::text::push_str(&mut file, ".json.zst");
        join_str(self.root.as_slice(), file.as_str())
    }
}

/// Where the journal of a stream is kept.
#[derive(Debug, Clone)]
pub struct JournalStore {
    pub path: Vec<u8>,
}

impl JournalStore {
    /// The journal of a stream directory.
    pub fn new(stream_root: &[u8]) -> (s: Self)
        ensures
            s.path@ == spec_join(stream_root@, encode_utf8("journal/events.ndjson"@)),
    {
        JournalStore { path: join_str(stream_root, "journal/events.ndjson") }
    }
}

/// Where the session trackers of a stream are kept, one file per session.
#[derive(Debug, Clone)]
pub struct SessionTrackerStore {
    pub root: Vec<u8>,
}

impl SessionTrackerStore {
    /// The session tracker store of a stream directory.
    pub fn new(stream_root: &[u8]) -> (s: Self)
        ensures
            s.root@ == spec_join(stream_root@, encode_utf8("session-trackers"@)),
    {
        SessionTrackerStore { root: join_str(stream_root, "session-trackers") }
    }

    /// The file of one session's tracker.
    pub fn path(&self, session_id: &str) -> (r: Vec<u8>)
        requires
            base64_fits(encode_utf8(session_id@).len()),
        ensures
            r@ == spec_join(self.root@, json_file_name(session_id@)),
    {
        let file = json_file(session_id);
        join_str(self.root.as_slice(), file.as_str())
    }
}

/// Where the checkpoint intents of a stream are logged, one record per line.
#[derive(Debug, Clone)]
pub struct IntentStore {
    pub path: Vec<u8>,
}

impl IntentStore {
    /// The intent log of a stream directory.
    pub fn new(stream_root: &[u8]) -> (s: Self)
        ensures
            s.path@ == spec_join(stream_root@, encode_utf8("intents/intents.ndjson"@)),
    {
        IntentStore { path: join_str(stream_root, "intents/intents.ndjson") }
    }
}

/// The stores of one stream.
#[derive(Debug, Clone)]
pub struct Stores {
    pub runtime: RuntimeLayout,
    pub manager: ManagerStore,
    pub turns: TurnStore,
    pub sessions: SessionStore,
    pub manifests: ManifestStore,
    pub journal: JournalStore,
    pub lock_path: Vec<u8>,
}

impl Stores {
    /// The stores of a stream: the turns under the runtime directory's `turns`, everything
    /// else under the stream's directory, sharing the runtime lock.
    pub fn for_stream(runtime: RuntimeLayout, stream_id: &str) -> (s: Self)
        ensures
            s.runtime == runtime,
            s.lock_path@ == runtime.lock_path@,
            ({
                let root = spec_join(runtime.streams_root@, encode_utf8(stream_id@));
                &&& s.manager.path@ == spec_join(root, encode_utf8("manager.json"@))
                &&& s.turns.root@ == spec_join(runtime.root@, encode_utf8("turns"@))
                &&& s.sessions.root@ == spec_join(root, encode_utf8("sessions"@))
                &&& s.manifests.root@ == spec_join(root, encode_utf8("manifests"@))
                &&& s.journal.path@ == spec_join(root, encode_utf8("journal/events.ndjson"@))
            }),
    {
        let stream_root = runtime.stream_root(stream_id);
        let lock_path = crate::domain::repopath::copy_bytes(&runtime.lock_path);
        Stores {
            manager: ManagerStore::new(stream_root.as_slice()),
            turns: TurnStore::new(runtime.root.as_slice()),
            sessions: SessionStore::new(stream_root.as_slice()),
            manifests: ManifestStore::new(stream_root.as_slice()),
            journal: JournalStore::new(stream_root.as_slice()),
            lock_path,
            runtime,
        }
    }
}


/// The machine-local installation record kept in `local.toml`.
#[derive(Debug, Clone)]
pub struct LocalConfig {
    pub version: u32,
    pub binary_path: String,
    pub install_version: String,
    pub worktree_id: String,
}

/// The installation record of a worktree: the current format version, the installed binary
/// and its version, and the worktree's id, the BLAKE3 digest of its canonical path.
pub fn local_config(binary_path: &str, install_version: &str, worktree: &[u8]) -> (c: LocalConfig)
    ensures
        c.version == 2,
        c.binary_path@ == binary_path@,
        c.install_version@ == install_version@,
        c.worktree_id@ == crate::domain::ids::blake3_hex(worktree@),
{
    LocalConfig {
        version: 2,
        binary_path: binary_path.to_string(),
        install_version: install_version.to_string(),
        worktree_id: crate::domain::ids::hash_hex(worktree),
    }
}

/// A source of the current time, in seconds since the Unix epoch.
pub trait Clock {
    fn now_unix(&self) -> i64;
}

/// A marker for manifests of one element type kept in a manifest store.
pub struct TypedManifest<T> {
    pub marker: core::marker::PhantomData<T>,
}

/// The UTF-8 bytes of a runtime key begin with the byte of `k`.
proof fn lemma_key_first_byte(key: Seq<char>)
    requires
        key.len() > 0,
        key[0] == 'k',
    ensures
        encode_utf8(key).len() > 0,
        encode_utf8(key)[0] == 107u8,
{
    let c = key[0] as u32;
    assert(c == 107);
    assert((107u32 & 0x7Fu32) as u8 == 107u8) by (bit_vector);
    assert(vstd::utf8::encode_scalar(c) =~= seq![107u8]);
}

/// The directory of a session's turns is a direct child of the turns root, named by the
/// session's runtime key; distinct sessions get distinct directories.
pub proof fn law_session_dirs_are_distinct_children(root: Seq<u8>, a: Seq<char>, b: Seq<char>)
    ensures
        spec_join(root, encode_utf8(spec_runtime_key(a))) == (if root.len() > 0 && root.last() != 47u8 {
            root + seq![47u8]
        } else {
            root
        }) + encode_utf8(spec_runtime_key(a)),
        a != b ==> spec_join(root, encode_utf8(spec_runtime_key(a))) != spec_join(
            root,
            encode_utf8(spec_runtime_key(b)),
        ),
{
    law_runtime_keys_are_distinct_components(a, b);
    law_runtime_keys_are_distinct_components(b, a);
    lemma_key_first_byte(spec_runtime_key(a));
    lemma_key_first_byte(spec_runtime_key(b));
    let ea = encode_utf8(spec_runtime_key(a));
    let eb = encode_utf8(spec_runtime_key(b));
    let pre = if root.len() > 0 && root.last() != 47u8 {
        root + seq![47u8]
    } else {
        root
    };
    assert(spec_join(root, ea) =~= pre + ea);
    assert(spec_join(root, eb) =~= pre + eb);
    if a != b && pre + ea == pre + eb {
        assert(ea =~= (pre + ea).subrange(pre.len() as int, (pre + ea).len() as int));
        assert(eb =~= (pre + eb).subrange(pre.len() as int, (pre + eb).len() as int));
        vstd::utf8::encode_utf8_decode_utf8(spec_runtime_key(a));
        vstd::utf8::encode_utf8_decode_utf8(spec_runtime_key(b));
    }
}

} // verus!
