//! Streams, HEAD state, sessions and repository states.
use vstd::prelude::*;

use crate::domain::session_tracker::opt_text;

verus! {

/// What kind of history a stream follows.
#[derive(Debug, Clone)]
pub enum StreamClass {
    Branch { symref: String },
    DetachedHead,
}

/// A stream class as a mathematical value.
pub enum ClassView {
    Branch(Seq<char>),
    DetachedHead,
}

impl View for StreamClass {
    type V = ClassView;

    open spec fn view(&self) -> ClassView {
        match self {
            StreamClass::Branch { symref } => ClassView::Branch(symref@),
            StreamClass::DetachedHead => ClassView::DetachedHead,
        }
    }
}

/// Where HEAD points.
#[derive(Debug, Clone)]
pub struct HeadState {
    pub oid: Option<String>,
    pub symref: Option<String>,
    pub detached: bool,
}

/// The identity of a checkpoint stream: one worktree following one branch (or detached HEAD).
#[derive(Debug, Clone)]
pub struct StreamIdentity {
    pub worktree_id: String,
    pub stream_id: String,
    pub hidden_ref: String,
    pub display_name: String,
    pub class: StreamClass,
}

/// A Codex session seen on a stream.
#[derive(Debug, Clone)]
pub struct SessionState {
    pub version: u32,
    pub session_id: String,
    pub stream_id: String,
    pub started_at: i64,
    pub last_seen_at: i64,
}

/// The last snapshot observed on a stream.
#[derive(Debug, Clone)]
pub struct Observation {
    pub materialized_fingerprint: String,
    pub observed_fingerprint: Option<String>,
    pub manifest_id: String,
    pub seen_at: i64,
    pub observed_head_oid: Option<String>,
}

/// In-progress Git operations and checkout features that matter to checkpointing.
#[derive(Debug, Clone, Default)]
pub struct RepoState {
    pub merge_in_progress: bool,
    pub rebase_in_progress: bool,
    pub cherry_pick_in_progress: bool,
    pub sequencer_in_progress: bool,
    pub sparse_checkout: bool,
}

/// The first in-progress operation, in the order merge, rebase, cherry-pick, sequencer.
pub open spec fn spec_unsupported_reason(s: RepoState) -> Option<Seq<char>> {
    if s.merge_in_progress {
        Some("merge-in-progress"@)
    } else if s.rebase_in_progress {
        Some("rebase-in-progress"@)
    } else if s.cherry_pick_in_progress {
        Some("cherry-pick-in-progress"@)
    } else if s.sequencer_in_progress {
        Some("sequencer-in-progress"@)
    } else {
        None
    }
}

impl RepoState {
    /// Why checkpointing cannot run in this repository state, if it cannot.
    pub fn unsupported_reason(&self) -> (r: Option<&'static str>)
        ensures
            r matches Some(s) ==> spec_unsupported_reason(*self) == Some(s@),
            r is None ==> spec_unsupported_reason(*self) is None,
    {
        if self.merge_in_progress {
            Some("merge-in-progress")
        } else if self.rebase_in_progress {
            Some("rebase-in-progress")
        } else if self.cherry_pick_in_progress {
            Some("cherry-pick-in-progress")
        } else if self.sequencer_in_progress {
            Some("sequencer-in-progress")
        } else {
            None
        }
    }
}

/// A copy of an optional string.
pub fn copy_opt_string(o: &Option<String>) -> (r: Option<String>)
    ensures
        opt_text(r) == opt_text(*o),
{
    match o {
        Some(v) => Some(v.clone()),
        None => None,
    }
}

impl StreamClass {
    /// A copy of this class.
    pub fn duplicate(&self) -> (c: Self)
        ensures
            c@ == self@,
    {
        match self {
            StreamClass::Branch { symref } => StreamClass::Branch { symref: symref.clone() },
            StreamClass::DetachedHead => StreamClass::DetachedHead,
        }
    }
}

/// Two stream identities that agree on every field.
pub open spec fn same_stream(a: StreamIdentity, b: StreamIdentity) -> bool {
    &&& a.worktree_id@ == b.worktree_id@
    &&& a.stream_id@ == b.stream_id@
    &&& a.hidden_ref@ == b.hidden_ref@
    &&& a.display_name@ == b.display_name@
    &&& a.class@ == b.class@
}

impl StreamIdentity {
    /// A copy of this identity.
    pub fn duplicate(&self) -> (s: Self)
        ensures
            same_stream(s, *self),
    {
        StreamIdentity {
            worktree_id: self.worktree_id.clone(),
            stream_id: self.stream_id.clone(),
            hidden_ref: self.hidden_ref.clone(),
            display_name: self.display_name.clone(),
            class: self.class.duplicate(),
        }
    }
}

/// The session record after a session is seen at `now`: the stored one with its last-seen
/// time moved to `now`, or a new one started now on the stream.
pub open spec fn refreshed_session(
    existing: Option<SessionState>,
    s: SessionState,
    session_id: Seq<char>,
    stream_id: Seq<char>,
    now: i64,
) -> bool {
    match existing {
        Some(e) => {
            &&& s.version == e.version
            &&& s.session_id@ == e.session_id@
            &&& s.stream_id@ == e.stream_id@
            &&& s.started_at == e.started_at
            &&& s.last_seen_at == now
        },
        None => {
            &&& s.version == 2
            &&& s.session_id@ == session_id
            &&& s.stream_id@ == stream_id
            &&& s.started_at == now
            &&& s.last_seen_at == now
        },
    }
}

/// The session record to store when a session is seen at `now`.
pub fn refresh_session(
    existing: Option<SessionState>,
    session_id: &str,
    stream_id: &str,
    now: i64,
) -> (s: SessionState)
    ensures
        refreshed_session(existing, s, session_id@, stream_id@, now),
{
    match existing {
        Some(current) => {
            let mut current = current;
            current.last_seen_at = now;
            current
        },
        None => SessionState {
            version: 2,
            session_id: session_id.to_string(),
            stream_id: stream_id.to_string(),
            started_at: now,
            last_seen_at: now,
        },
    }
}


/// The trimmed text of an optional answer.
pub open spec fn trimmed_answer(o: Option<&str>) -> Option<Seq<char>> {
    match o {
        Some(t) => Some(crate::gitparse::trim_white(t@)),
        None => None,
    }
}

fn trimmed_string(o: Option<&str>) -> (r: Option<String>)
    ensures
        opt_text(r) == trimmed_answer(o),
{
    match o {
        Some(t) => {
            let cs = crate::text::chars_of(t);
            let trimmed = crate::gitparse::trim_white_chars(cs.as_slice());
            Some(crate::text::string_of(trimmed.as_slice()))
        },
        None => None,
    }
}

/// HEAD from Git's answers: the object id (`rev-parse --verify HEAD`) and the symbolic ref
/// (`symbolic-ref HEAD`), each trimmed, absent when its command failed; HEAD is detached
/// when it names an object but no branch.
pub fn head_state_of(oid_text: Option<&str>, symref_text: Option<&str>) -> (h: HeadState)
    ensures
        opt_text(h.oid) == trimmed_answer(oid_text),
        opt_text(h.symref) == trimmed_answer(symref_text),
        h.detached == (symref_text is None && oid_text is Some),
{
    let oid = trimmed_string(oid_text);
    let symref = trimmed_string(symref_text);
    let detached = symref.is_none() && oid.is_some();
    HeadState { oid, symref, detached }
}

} // verus!
