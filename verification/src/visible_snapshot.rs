//! The meaningful snapshot of the owned paths for visible checkpoints, turn ids, and the
//! command lines that build it.
use sha2::{Digest, Sha256};
use vstd::prelude::*;

use crate::domain::ids::is_lower_hex;
use crate::guard::{spec_git_subcommand, shlex_words, string_views};
use crate::order::{char_key, has_key, keys, lemma_char_key_injective, sort_unique, strictly_sorted};
use crate::text::{push_char, push_str, str_eq};
use crate::order::SortKey;
use crate::visible::{lists, ManifestEntry};

verus! {

/// The fields of a NUL-separated list, given the field already begun.
pub open spec fn nul_fields_from(s: Seq<char>, cur: Seq<char>) -> Seq<Seq<char>>
    decreases s.len(),
{
    if s.len() == 0 {
        seq![cur]
    } else if s[0] == '\0' {
        seq![cur] + nul_fields_from(s.drop_first(), Seq::empty())
    } else {
        nul_fields_from(s.drop_first(), cur.push(s[0]))
    }
}

/// The non-empty fields of a NUL-separated list (Git's `-z` output).
pub open spec fn spec_split_nul_list(s: Seq<char>) -> Seq<Seq<char>> {
    nul_fields_from(s, Seq::empty()).filter(|f: Seq<char>| f.len() > 0)
}

/// Splits Git's NUL-separated output into its non-empty fields.
pub fn split_nul_list(value: &str) -> (r: Vec<String>)
    ensures
        string_views(r@) == spec_split_nul_list(value@),
{
    let cs = crate::text::chars_of(value);
    let ghost s = cs@;
    let ghost nonempty = |f: Seq<char>| f.len() > 0;
    let mut out: Vec<String> = Vec::new();
    let mut cur = String::new();
    let mut cur_nonempty = false;
    let ghost mut done: Seq<Seq<char>> = Seq::empty();
    let mut i: usize = 0;
    assert(s.skip(0) =~= s);
    assert(done.filter(nonempty) =~= Seq::<Seq<char>>::empty()) by {
        reveal(Seq::filter);
    }
    while i < cs.len()
        invariant
            s == cs@,
            s == value@,
            i <= s.len(),
            nonempty == (|f: Seq<char>| f.len() > 0),
            nul_fields_from(s, Seq::empty()) == done + nul_fields_from(s.skip(i as int), cur@),
            string_views(out@) == done.filter(nonempty),
            cur_nonempty == (cur@.len() > 0),
        decreases cs.len() - i,
    {
        assert(s.skip(i as int).drop_first() =~= s.skip(i + 1));
        assert(s.skip(i as int)[0] == s[i as int]);
        if cs[i] == '\0' {
            let ghost field = cur@;
            let ghost before = out@;
            proof {
                reveal(Seq::filter);
                assert(done.push(field).drop_last() =~= done);
                assert(done.push(field) + nul_fields_from(s.skip(i + 1), Seq::empty()) =~= done + (
                seq![field] + nul_fields_from(s.skip(i + 1), Seq::empty())));
            }
            if cur_nonempty {
                out.push(cur);
                assert(string_views(out@) =~= string_views(before).push(field));
            }
            cur = String::new();
            cur_nonempty = false;
            proof {
                done = done.push(field);
            }
        } else {
            push_char(&mut cur, cs[i]);
            cur_nonempty = true;
        }
        i = i + 1;
    }
    let ghost field = cur@;
    let ghost before = out@;
    proof {
        reveal(Seq::filter);
        assert(done.push(field).drop_last() =~= done);
        assert(done + seq![field] =~= done.push(field));
    }
    if cur_nonempty {
        out.push(cur);
        assert(string_views(out@) =~= string_views(before).push(field));
    }
    out
}

/// The arguments of a Git command limited to the owned paths: the subcommand, its options,
/// `--`, then the paths.
pub open spec fn spec_git_args(sub: Seq<char>, extra: Seq<Seq<char>>, owned: Seq<Seq<char>>) -> Seq<Seq<char>> {
    seq![sub] + extra + seq!["--"@] + owned
}

/// Builds the arguments of a Git command limited to the owned paths.
pub fn build_git_args(subcommand: &str, extra: &[&str], owned_paths: &[String]) -> (r: Vec<String>)
    ensures
        string_views(r@) == spec_git_args(
            subcommand@,
            extra@.map_values(|e: &str| e@),
            string_views(owned_paths@),
        ),
{
    let mut args: Vec<String> = Vec::new();
    args.push(subcommand.to_string());
    let mut i: usize = 0;
    while i < extra.len()
        invariant
            i <= extra@.len(),
            string_views(args@) == seq![subcommand@] + extra@.take(i as int).map_values(|e: &str| e@),
        decreases extra.len() - i,
    {
        let ghost before = args@;
        args.push(extra[i].to_string());
        proof {
            assert(string_views(args@) =~= string_views(before).push(extra@[i as int]@));
            assert(extra@.take(i + 1).map_values(|e: &str| e@) =~= extra@.take(i as int).map_values(
                |e: &str| e@,
            ).push(extra@[i as int]@));
        }
        i = i + 1;
    }
    let ghost before = args@;
    args.push("--".to_string());
    assert(string_views(args@) =~= string_views(before).push("--"@));
    let mut j: usize = 0;
    while j < owned_paths.len()
        invariant
            j <= owned_paths@.len(),
            string_views(args@) == seq![subcommand@] + extra@.map_values(|e: &str| e@) + seq!["--"@]
                + string_views(owned_paths@.take(j as int)),
        decreases owned_paths.len() - j,
    {
        let ghost before = args@;
        args.push(owned_paths[j].clone());
        proof {
            assert(string_views(args@) =~= string_views(before).push(owned_paths@[j as int]@));
            assert(string_views(owned_paths@.take(j + 1)) =~= string_views(owned_paths@.take(j as int)).push(
                owned_paths@[j as int]@,
            ));
        }
        j = j + 1;
    }
    proof {
        assert(extra@.take(extra@.len() as int) =~= extra@);
        assert(owned_paths@.take(owned_paths@.len() as int) =~= owned_paths@);
    }
    args
}

/// A character kept in an identifier: ASCII letters and digits, `.`, `_` and `-`.
pub open spec fn identifier_char(c: char) -> bool {
    ('a' <= c <= 'z') || ('A' <= c <= 'Z') || ('0' <= c <= '9') || c == '.' || c == '_' || c == '-'
}

/// A character trimmed from the ends of an identifier.
pub open spec fn edge_char(c: char) -> bool {
    c == '.' || c == '_' || c == '-'
}

/// Each character kept, or replaced by `_`.
pub open spec fn cleaned(s: Seq<char>) -> Seq<char> {
    s.map_values(|c: char| if identifier_char(c) { c } else { '_' })
}

/// The position of the first character that is not an edge character (or the length).
pub open spec fn first_inner(s: Seq<char>, i: int) -> int
    decreases s.len() - i,
{
    if i >= s.len() || i < 0 {
        s.len() as int
    } else if !edge_char(s[i]) {
        i
    } else {
        first_inner(s, i + 1)
    }
}

/// One past the position of the last character that is not an edge character (or zero).
pub open spec fn last_inner(s: Seq<char>, j: int) -> int
    decreases j,
{
    if j <= 0 || j > s.len() {
        0
    } else if !edge_char(s[j - 1]) {
        j
    } else {
        last_inner(s, j - 1)
    }
}

/// A text with the edge characters trimmed from both ends.
pub open spec fn trim_edges(s: Seq<char>) -> Seq<char> {
    let a = first_inner(s, 0);
    if a >= s.len() {
        Seq::empty()
    } else {
        s.subrange(a, last_inner(s, s.len() as int))
    }
}

/// An identifier safe for a file name: every character outside the kept ones replaced by
/// `_`, `.`, `_` and `-` trimmed from both ends, and `current` when nothing is left.
pub open spec fn spec_sanitize_identifier(s: Seq<char>) -> Seq<char> {
    let t = trim_edges(cleaned(s));
    if t.len() == 0 {
        "current"@
    } else {
        t
    }
}

proof fn lemma_first_inner(s: Seq<char>, i: int)
    requires
        0 <= i <= s.len(),
    ensures
        i <= first_inner(s, i) <= s.len(),
        first_inner(s, i) < s.len() ==> !edge_char(s[first_inner(s, i)]),
        forall|k: int| i <= k < first_inner(s, i) ==> edge_char(#[trigger] s[k]),
    decreases s.len() - i,
{
    if i < s.len() && edge_char(s[i]) {
        lemma_first_inner(s, i + 1);
    }
}

proof fn lemma_last_inner(s: Seq<char>, j: int)
    requires
        0 <= j <= s.len(),
    ensures
        0 <= last_inner(s, j) <= j,
        last_inner(s, j) > 0 ==> !edge_char(s[last_inner(s, j) - 1]),
        forall|k: int| last_inner(s, j) <= k < j ==> edge_char(#[trigger] s[k]),
    decreases j,
{
    if j > 0 && edge_char(s[j - 1]) {
        lemma_last_inner(s, j - 1);
    }
}

/// A text of kept characters, not beginning or ending with `.`, `_` or `-`, is its own
/// sanitized form.
proof fn lemma_sanitized_fixed(t: Seq<char>)
    requires
        t.len() > 0,
        forall|i: int| 0 <= i < t.len() ==> identifier_char(#[trigger] t[i]),
        !edge_char(t[0]),
        !edge_char(t[t.len() - 1]),
    ensures
        spec_sanitize_identifier(t) == t,
{
    assert(cleaned(t) =~= t);
    assert(first_inner(t, 0) == 0);
    assert(last_inner(t, t.len() as int) == t.len());
    assert(trim_edges(t) =~= t);
}

/// A sanitized identifier is never empty, holds only the kept characters, is `current` or
/// neither starts nor ends with `.`, `_` or `-`, and sanitizing it again changes nothing.
pub proof fn law_sanitized_identifier_is_stable(s: Seq<char>)
    ensures
        spec_sanitize_identifier(s).len() > 0,
        forall|i: int| 0 <= i < spec_sanitize_identifier(s).len() ==> identifier_char(
            #[trigger] spec_sanitize_identifier(s)[i],
        ),
        spec_sanitize_identifier(s) == "current"@ || (!edge_char(spec_sanitize_identifier(s)[0])
            && !edge_char(spec_sanitize_identifier(s)[spec_sanitize_identifier(s).len() - 1])),
        spec_sanitize_identifier(spec_sanitize_identifier(s)) == spec_sanitize_identifier(s),
{
    reveal_strlit("current");
    let c = cleaned(s);
    assert forall|i: int| 0 <= i < c.len() implies identifier_char(#[trigger] c[i]) by {}
    let t = trim_edges(c);
    lemma_first_inner(c, 0);
    lemma_last_inner(c, c.len() as int);
    let a = first_inner(c, 0);
    let b = last_inner(c, c.len() as int);
    if a < c.len() {
        if b <= a {
            assert(edge_char(c[a]));
        }
        assert(t =~= c.subrange(a, b));
        assert(t[0] == c[a]);
        assert(t[t.len() - 1] == c[b - 1]);
        lemma_sanitized_fixed(t);
    } else {
        let cur = "current"@;
        assert(cur.len() == 7);
        assert forall|i: int| 0 <= i < cur.len() implies identifier_char(#[trigger] cur[i]) by {}
        lemma_sanitized_fixed(cur);
    }
}

fn identifier_char_exec(c: char) -> (r: bool)
    ensures
        r == identifier_char(c),
{
    ('a' <= c && c <= 'z') || ('A' <= c && c <= 'Z') || ('0' <= c && c <= '9') || c == '.' || c
        == '_' || c == '-'
}

/// Makes an identifier safe for use in a file name.
pub fn sanitize_identifier(value: &str) -> (r: String)
    ensures
        r@ == spec_sanitize_identifier(value@),
{
    let cs = crate::text::chars_of(value);
    let mut c: Vec<char> = Vec::new();
    let mut i: usize = 0;
    while i < cs.len()
        invariant
            cs@ == value@,
            i <= cs@.len(),
            c@ == cleaned(cs@.take(i as int)),
        decreases cs.len() - i,
    {
        let ch = cs[i];
        c.push(if identifier_char_exec(ch) { ch } else { '_' });
        assert(cs@.take(i + 1) =~= cs@.take(i as int).push(ch));
        assert(c@ =~= cleaned(cs@.take(i + 1)));
        i = i + 1;
    }
    assert(cs@.take(cs@.len() as int) =~= cs@);
    let ghost s = c@;
    proof {
        lemma_first_inner(s, 0);
        lemma_last_inner(s, s.len() as int);
    }
    let mut a: usize = 0;
    while a < c.len() && (c[a] == '.' || c[a] == '_' || c[a] == '-')
        invariant
            s == c@,
            a <= s.len(),
            first_inner(s, 0) == first_inner(s, a as int),
        decreases c.len() - a,
    {
        a = a + 1;
    }
    if a >= c.len() {
        return String::from_str("current");
    }
    let mut b: usize = c.len();
    while b > 0 && (c[b - 1] == '.' || c[b - 1] == '_' || c[b - 1] == '-')
        invariant
            s == c@,
            b <= s.len(),
            last_inner(s, s.len() as int) == last_inner(s, b as int),
        decreases b,
    {
        b = b - 1;
    }
    proof {
        lemma_first_inner(s, a as int);
        lemma_last_inner(s, b as int);
        assert(!edge_char(s[a as int]));
        assert(last_inner(s, b as int) == b);
        if b <= a {
            assert(b > 0 ==> !edge_char(s[b - 1]));
        }
    }
    assert(a < b) by {
        if b <= a {
            lemma_last_inner(s, s.len() as int);
            assert(forall|k: int| last_inner(s, s.len() as int) <= k < s.len() ==> edge_char(#[trigger] s[k]));
            assert(edge_char(s[a as int]));
        }
    }
    crate::text::string_of_range(c.as_slice(), a, b)
}

/// The turn id of a visible-checkpoint payload: the one it names, made safe for a file
/// name, or `current`.
pub fn turn_id_from_payload(payload: &crate::payload::JsonValue) -> (r: String)
    ensures
        r@ == (match crate::payload::first_string(*payload, crate::payload::turn_keys()) {
            Some(t) => spec_sanitize_identifier(t),
            None => "current"@,
        }),
{
    let keys: [&str; 5] = ["turn_id", "turnId", "conversationTurnId", "request_id", "requestId"];
    assert(crate::payload::key_views(keys@) =~= crate::payload::turn_keys());
    match crate::payload::find_first_string(payload, &keys) {
        Some(t) => sanitize_identifier(t),
        None => String::from_str("current"),
    }
}

/// The subcommands that the visible-checkpoint guard blocks outright.
pub open spec fn is_committing_subcommand(s: Seq<char>) -> bool {
    s == "add"@ || s == "commit"@ || s == "merge"@ || s == "rebase"@ || s == "cherry-pick"@ || s
        == "push"@ || s == "tag"@ || s == "stash"@ || s == "am"@
}

/// A blocked command: a `git` command line whose subcommand commits, or a hard reset.
pub open spec fn spec_blocks_visible(command_text: Option<Seq<char>>) -> bool {
    match command_text {
        None => false,
        Some(line) => match shlex_words(line) {
            None => false,
            Some(argv) => match spec_git_subcommand(argv) {
                None => false,
                Some(sub) => is_committing_subcommand(sub) || (sub == "reset"@ && argv.contains(
                    "--hard"@,
                )),
            },
        },
    }
}

/// Whether the visible-checkpoint guard denies a command.
pub fn should_block_git_command(command_text: Option<&str>) -> (r: bool)
    ensures
        r == spec_blocks_visible(crate::engine::repair::opt_str(command_text)),
{
    let line = match command_text {
        None => return false,
        Some(line) => line,
    };
    let argv = match crate::guard::split_words(line) {
        None => return false,
        Some(argv) => argv,
    };
    let sub = match crate::guard::git_subcommand(argv.as_slice()) {
        None => return false,
        Some(sub) => sub,
    };
    if str_eq(sub, "add") || str_eq(sub, "commit") || str_eq(sub, "merge") || str_eq(sub, "rebase")
        || str_eq(sub, "cherry-pick") || str_eq(sub, "push") || str_eq(sub, "tag") || str_eq(
        sub,
        "stash",
    ) || str_eq(sub, "am") {
        return true;
    }
    if !str_eq(sub, "reset") {
        return false;
    }
    let mut i: usize = 0;
    while i < argv.len()
        invariant
            i <= argv@.len(),
            command_text == Some(line),
            shlex_words(line@) == Some(string_views(argv@)),
            spec_git_subcommand(string_views(argv@)) == Some(sub@),
            sub@ == "reset"@,
            forall|k: int| 0 <= k < i ==> (#[trigger] argv@[k])@ != "--hard"@,
        decreases argv.len() - i,
    {
        if str_eq(argv[i].as_str(), "--hard") {
            assert(string_views(argv@)[i as int] == "--hard"@);
            return true;
        }
        i = i + 1;
    }
    assert(!string_views(argv@).contains("--hard"@)) by {
        if string_views(argv@).contains("--hard"@) {
            let k = choose|k: int| 0 <= k < string_views(argv@).len() && string_views(argv@)[k]
                == "--hard"@;
            assert(argv@[k]@ == "--hard"@);
        }
    }
    false
}

/// The SHA-256 digest of some bytes, as 64 lowercase hexadecimal digits.
pub uninterp spec fn sha256_hex_of(bytes: Seq<u8>) -> Seq<char>;

/// `sha2::Sha256::digest`, written with `{:x}`: the SHA-256 digest of the bytes as 64
/// lowercase hexadecimal digits.
#[verifier::external_body]
pub(crate) fn sha256_hex(bytes: &[u8]) -> (r: String)
    ensures
        r@ == sha256_hex_of(bytes@),
        r@.len() == 64,
        forall|i: int| 0 <= i < r@.len() ==> is_lower_hex(#[trigger] r@[i]),
{
    format!("{:x}", Sha256::digest(bytes))
}

/// The fingerprint of a manifest from its JSON serialization: `sha256:` and the digest.
pub fn manifest_fingerprint(serialized: &[u8]) -> (r: String)
    ensures
        r@ == "sha256:"@ + sha256_hex_of(serialized@),
{
    let mut r = String::from_str("sha256:");
    let hex = sha256_hex(serialized);
    push_str(&mut r, hex.as_str());
    r
}

/// The entry of a present file: its path, `present` and the digest of its bytes.
pub fn present_entry(path: String, bytes: &[u8]) -> (e: ManifestEntry)
    ensures
        e.path@ == path@,
        e.status@ == "present"@,
        e.sha256 matches Some(d) && d@ == sha256_hex_of(bytes@),
{
    ManifestEntry { path, status: String::from_str("present"), sha256: Some(sha256_hex(bytes)) }
}

/// The entry of a deleted file.
pub fn deleted_entry(path: String) -> (e: ManifestEntry)
    ensures
        e.path@ == path@,
        e.status@ == "deleted"@,
        e.sha256 is None,
{
    ManifestEntry { path, status: String::from_str("deleted"), sha256: None }
}

fn list_has(v: &Vec<String>, p: &str) -> (r: bool)
    ensures
        r == lists(v@, p@),
{
    let mut i: usize = 0;
    while i < v.len()
        invariant
            i <= v@.len(),
            forall|k: int| 0 <= k < i ==> (#[trigger] v@[k])@ != p@,
        decreases v.len() - i,
    {
        if str_eq(v[i].as_str(), p) {
            return true;
        }
        i = i + 1;
    }
    false
}

proof fn lemma_lists_take_step(s: Seq<String>, i: int, p: Seq<char>)
    requires
        0 <= i < s.len(),
    ensures
        lists(s.take(i + 1), p) <==> (lists(s.take(i), p) || s[i]@ == p),
{
    if lists(s.take(i + 1), p) {
        let k = choose|k: int| 0 <= k < s.take(i + 1).len() && (#[trigger] s.take(i + 1)[k])@ == p;
        if k < i {
            assert(s.take(i)[k] == s.take(i + 1)[k]);
        }
    }
    if lists(s.take(i), p) {
        let k = choose|k: int| 0 <= k < s.take(i).len() && (#[trigger] s.take(i)[k])@ == p;
        assert(s.take(i + 1)[k] == s.take(i)[k]);
    }
    if s[i]@ == p {
        assert(s.take(i + 1)[i] == s[i]);
    }
}

proof fn lemma_lists_push(s: Seq<String>, x: String, p: Seq<char>)
    ensures
        lists(s.push(x), p) <==> (lists(s, p) || x@ == p),
{
    if lists(s.push(x), p) {
        let k = choose|k: int| 0 <= k < s.push(x).len() && (#[trigger] s.push(x)[k])@ == p;
        if k < s.len() {
            assert(s[k] == s.push(x)[k]);
        }
    }
    if lists(s, p) {
        let k = choose|k: int| 0 <= k < s.len() && (#[trigger] s[k])@ == p;
        assert(s.push(x)[k] == s[k]);
    }
    if x@ == p {
        assert(s.push(x)[s.len() as int] == x);
    }
}

fn add_undeleted(v: &mut Vec<String>, items: &Vec<String>, deleted: &Vec<String>)
    ensures
        forall|p: Seq<char>|
            lists(final(v)@, p) <==> (lists(old(v)@, p) || (lists(items@, p) && !lists(deleted@, p))),
{
    let ghost start = v@;
    let mut i: usize = 0;
    assert(items@.take(0) =~= Seq::<String>::empty());
    while i < items.len()
        invariant
            i <= items@.len(),
            forall|p: Seq<char>|
                #[trigger] lists(v@, p) <==> (lists(start, p) || (lists(items@.take(i as int), p) && !lists(
                    deleted@,
                    p,
                ))),
        decreases items.len() - i,
    {
        let item = &items[i];
        let ghost before = v@;
        let gone = list_has(deleted, item.as_str());
        if !gone {
            let c = item.clone();
            assert(c@ == items@[i as int]@);
            v.push(c);
        }
        assert forall|p: Seq<char>|
            #[trigger] lists(v@, p) <==> (lists(start, p) || (lists(items@.take(i + 1), p) && !lists(
                deleted@,
                p,
            ))) by {
            lemma_lists_take_step(items@, i as int, p);
            assert(lists(before, p) <==> (lists(start, p) || (lists(items@.take(i as int), p)
                && !lists(deleted@, p))));
            if !gone {
                lemma_lists_push(before, v@.last(), p);
                assert(v@ =~= before.push(v@.last()));
                assert(v@.last()@ == items@[i as int]@);
                assert(lists(v@, p) <==> (lists(before, p) || items@[i as int]@ == p));
            } else {
                assert(v@ == before);
                assert(lists(deleted@, items@[i as int]@));
            }
        }
        i = i + 1;
    }
    assert(items@.take(items@.len() as int) =~= items@);
}

/// The paths present in the worktree: known to Git or untracked, not deleted, sorted, each
/// once.
pub fn present_paths(known: &Vec<String>, deleted: &Vec<String>, untracked: &Vec<String>) -> (r:
    Vec<String>)
    ensures
        strictly_sorted(keys(r@)),
        forall|p: Seq<char>|
            lists(r@, p) <==> ((lists(known@, p) || lists(untracked@, p)) && !lists(deleted@, p)),
{
    let mut v: Vec<String> = Vec::new();
    add_undeleted(&mut v, known, deleted);
    add_undeleted(&mut v, untracked, deleted);
    let ghost before = v@;
    let r = sort_unique(v);
    assert forall|p: Seq<char>| lists(r@, p) <==> lists(before, p) by {
        if lists(r@, p) {
            let k = choose|k: int| 0 <= k < r@.len() && (#[trigger] r@[k])@ == p;
            assert(has_key(r@, r@[k].key()));
            let m = choose|m: int| 0 <= m < before.len() && #[trigger] before[m].key() == char_key(p);
            lemma_char_key_injective(before[m]@, p);
        }
        if lists(before, p) {
            let k = choose|k: int| 0 <= k < before.len() && (#[trigger] before[k])@ == p;
            assert(has_key(before, before[k].key()));
            let m = choose|m: int| 0 <= m < r@.len() && #[trigger] r@[m].key() == char_key(p);
            lemma_char_key_injective(r@[m]@, p);
        }
    }
    r
}

} // verus!
