//! Stream identities, hidden-ref names and snapshot fingerprints.
use vstd::prelude::*;
use vstd::string::*;
use vstd::utf8::encode_utf8;

use crate::domain::session::{HeadState, StreamClass, StreamIdentity};
use crate::numtext::{octal, octal_chars};
use crate::text::{push_char, push_str, string_of};

verus! {

/// The lowercase hexadecimal BLAKE3 digest of a byte string.
pub uninterp spec fn blake3_hex(bytes: Seq<u8>) -> Seq<char>;

/// A lowercase hexadecimal digit.
pub open spec fn is_lower_hex(c: char) -> bool {
    ('0' <= c && c <= '9') || ('a' <= c && c <= 'f')
}

/// `blake3::hash(bytes).to_hex()`: the 32-byte BLAKE3 digest written as 64 lowercase
/// hexadecimal digits. The digest itself is named, not computed here.
#[verifier::external_body]
pub fn hash_hex(bytes: &[u8]) -> (r: String)
    ensures
        r@ == blake3_hex(bytes@),
        r@.len() == 64,
        forall|i: int| 0 <= i < r@.len() ==> is_lower_hex(#[trigger] r@[i]),
{
    blake3::hash(bytes).to_hex().to_string()
}

/// The name of the hidden ref of a stream.
pub open spec fn spec_checkpoint_ref_path(worktree_id: Seq<char>, stream_id: Seq<char>) -> Seq<char> {
    "refs/sprocket/checkpoints/v2/"@ + worktree_id + "/"@ + stream_id
}

/// The name of the hidden ref of a stream.
pub fn checkpoint_ref_path(worktree_id: &str, stream_id: &str) -> (r: String)
    ensures
        r@ == spec_checkpoint_ref_path(worktree_id@, stream_id@),
{
    let mut r = String::new();
    push_str(&mut r, "refs/sprocket/checkpoints/v2/");
    push_str(&mut r, worktree_id);
    push_str(&mut r, "/");
    push_str(&mut r, stream_id);
    proof {
        reveal_strlit("refs/sprocket/checkpoints/v2/");
        reveal_strlit("/");
    }
    r
}

/// The branch a stream class follows, if it follows one.
pub open spec fn class_branch(c: StreamClass) -> Option<Seq<char>> {
    match c {
        StreamClass::Branch { symref } => Some(symref@),
        StreamClass::DetachedHead => None,
    }
}

/// The text a stream id is hashed from, and the stream's display name.
pub open spec fn stream_source(head: HeadState) -> Seq<char> {
    match (head.symref, head.oid) {
        (Some(symref), _) => "symref:"@ + symref@,
        (None, Some(oid)) => "detached:"@ + oid@,
        (None, None) => "unborn"@,
    }
}

pub open spec fn stream_display_name(head: HeadState) -> Seq<char> {
    match (head.symref, head.oid) {
        (Some(symref), _) => symref@,
        (None, Some(oid)) => "detached:"@ + oid@,
        (None, None) => "unborn"@,
    }
}

/// The stream a worktree (given by its canonical path bytes) is on for a HEAD state.
pub open spec fn is_stream_identity(s: StreamIdentity, worktree: Seq<u8>, head: HeadState) -> bool {
    &&& s.worktree_id@ == blake3_hex(worktree)
    &&& s.stream_id@ == blake3_hex(encode_utf8(stream_source(head)))
    &&& s.hidden_ref@ == spec_checkpoint_ref_path(s.worktree_id@, s.stream_id@)
    &&& s.display_name@ == stream_display_name(head)
    &&& class_branch(s.class) == match head.symref {
        Some(symref) => Some(symref@),
        None => None,
    }
}

/// Computes the stream identity of a worktree from the bytes of its canonical path and HEAD.
pub fn compute_stream_identity(worktree: &[u8], head: &HeadState) -> (s: StreamIdentity)
    ensures
        is_stream_identity(s, worktree@, *head),
{
    let worktree_id = hash_hex(worktree);
    let (class, source, display_name) = match (&head.symref, &head.oid) {
        (Some(symref), _) => {
            let mut source = String::new();
            push_str(&mut source, "symref:");
            push_str(&mut source, symref.as_str());
            proof { reveal_strlit("symref:"); }
            (StreamClass::Branch { symref: symref.clone() }, source, symref.clone())
        },
        (None, Some(oid)) => {
            let mut source = String::new();
            push_str(&mut source, "detached:");
            push_str(&mut source, oid.as_str());
            let display = source.clone();
            proof { reveal_strlit("detached:"); }
            (StreamClass::DetachedHead, source, display)
        },
        (None, None) => {
            let source = String::from_str("unborn");
            let display = String::from_str("unborn");
            (StreamClass::DetachedHead, source, display)
        },
    };
    let stream_id = hash_hex(source.as_str().as_bytes());
    let hidden_ref = checkpoint_ref_path(worktree_id.as_str(), stream_id.as_str());
    StreamIdentity { worktree_id, stream_id, hidden_ref, display_name, class }
}

/// The ASCII bytes of a string of ASCII characters.
pub open spec fn ascii_bytes(s: Seq<char>) -> Seq<u8> {
    s.map_values(|c: char| c as u8)
}

/// The bytes one entry contributes to a fingerprint: path, NUL, octal mode, NUL, digest, 0xff.
pub open spec fn fingerprint_record(path: Seq<u8>, mode: u32, digest: Seq<char>) -> Seq<u8> {
    path + seq![0u8] + ascii_bytes(octal(mode as nat)) + seq![0u8] + encode_utf8(digest) + seq![0xffu8]
}

/// The bytes a fingerprint hashes: the records of all entries, in order.
pub open spec fn fingerprint_payload(entries: Seq<(Seq<u8>, u32, Seq<char>)>) -> Seq<u8>
    decreases entries.len(),
{
    if entries.len() == 0 {
        Seq::empty()
    } else {
        fingerprint_payload(entries.drop_last()) + fingerprint_record(
            entries.last().0,
            entries.last().1,
            entries.last().2,
        )
    }
}

/// The fingerprint of a list of (path, mode, digest) entries.
pub open spec fn spec_snapshot_fingerprint(entries: Seq<(Seq<u8>, u32, Seq<char>)>) -> Seq<char> {
    "blake3:"@ + blake3_hex(fingerprint_payload(entries))
}

/// The mathematical form of fingerprint input entries.
pub open spec fn fingerprint_inputs(entries: Seq<(&[u8], u32, &str)>) -> Seq<(Seq<u8>, u32, Seq<char>)> {
    entries.map_values(|e: (&[u8], u32, &str)| (e.0@, e.1, e.2@))
}

/// Fingerprints a list of (path, mode, digest) entries: BLAKE3 over each entry's path, a NUL
/// byte, the octal mode, a NUL byte, the digest and a 0xff byte.
pub fn snapshot_fingerprint(entries: &[(&[u8], u32, &str)]) -> (r: String)
    ensures
        r@ == spec_snapshot_fingerprint(fingerprint_inputs(entries@)),
{
    let mut payload: Vec<u8> = Vec::new();
    let mut i: usize = 0;
    while i < entries.len()
        invariant
            i <= entries.len(),
            payload@ == fingerprint_payload(fingerprint_inputs(entries@).take(i as int)),
        decreases entries.len() - i,
    {
        let (path, mode, digest) = entries[i];
        let ghost before = payload@;
        let mut k: usize = 0;
        while k < path.len()
            invariant
                k <= path.len(),
                payload@ == before + path@.take(k as int),
            decreases path.len() - k,
        {
            payload.push(path[k]);
            assert(path@.take(k + 1) =~= path@.take(k as int).push(path@[k as int]));
            k = k + 1;
        }
        payload.push(0u8);
        let mode_chars = octal_chars(mode as u64);
        let ghost before_mode = payload@;
        let mut k: usize = 0;
        while k < mode_chars.len()
            invariant
                k <= mode_chars.len(),
                payload@ == before_mode + ascii_bytes(mode_chars@.take(k as int)),
            decreases mode_chars.len() - k,
        {
            payload.push(mode_chars[k] as u8);
            assert(ascii_bytes(mode_chars@.take(k + 1)) =~= ascii_bytes(mode_chars@.take(k as int)).push(mode_chars@[k as int] as u8));
            k = k + 1;
        }
        payload.push(0u8);
        let db = digest.as_bytes();
        let ghost before_digest = payload@;
        let mut k: usize = 0;
        while k < db.len()
            invariant
                k <= db.len(),
                payload@ == before_digest + db@.take(k as int),
            decreases db.len() - k,
        {
            payload.push(db[k]);
            assert(db@.take(k + 1) =~= db@.take(k as int).push(db@[k as int]));
            k = k + 1;
        }
        payload.push(0xffu8);
        proof {
            let inputs = fingerprint_inputs(entries@);
            assert(inputs.take(i + 1).drop_last() =~= inputs.take(i as int));
            assert(inputs.take(i + 1).last() == (path@, mode, digest@));
            assert(path@.take(path@.len() as int) =~= path@);
            assert(mode_chars@.take(mode_chars@.len() as int) =~= mode_chars@);
            assert(db@.take(db@.len() as int) =~= db@);
            assert(payload@ =~= before + fingerprint_record(path@, mode, digest@));
        }
        i = i + 1;
    }
    assert(fingerprint_inputs(entries@).take(entries@.len() as int) =~= fingerprint_inputs(entries@));
    let hex = hash_hex(payload.as_slice());
    let mut r = String::new();
    push_str(&mut r, "blake3:");
    push_str(&mut r, hex.as_str());
    proof { reveal_strlit("blake3:"); }
    r
}

} // verus!
