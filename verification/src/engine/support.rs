//! Whether a repository can be checkpointed, and the journal events of hooks that stop early.
use vstd::prelude::*;
use vstd::utf8::encode_utf8;

use crate::domain::journal::{hook_noop, is_hook_noop, JournalEvent};
use crate::domain::policy::{spec_matches_owned_path, CheckpointMode, Policy};
use crate::domain::session::{spec_unsupported_reason, HeadState, RepoState, StreamIdentity};
use crate::engine::repair::TreeEntry;
use crate::text::{push_str, str_eq};

verus! {

/// The first reason found, in this order, why checkpointing cannot run: a mode other than
/// hidden-only, a detached HEAD, an operation in progress, or a sparse checkout.
pub open spec fn spec_support_precheck(policy: Policy, head: HeadState, state: RepoState) -> Option<
    Seq<char>,
> {
    if policy.checkpoint.mode != CheckpointMode::HiddenOnly {
        Some("checkpoint-mode-unsupported"@)
    } else if head.detached {
        Some("detached-head-unsupported"@)
    } else if spec_unsupported_reason(state) is Some {
        spec_unsupported_reason(state)
    } else if state.sparse_checkout {
        Some("sparse-checkout-unsupported"@)
    } else {
        None
    }
}

/// The checks that need no look at the tree or the worktree.
pub fn support_precheck(policy: &Policy, head: &HeadState, repo_state: &RepoState) -> (r: Option<
    &'static str,
>)
    ensures
        r matches Some(s) ==> spec_support_precheck(*policy, *head, *repo_state) == Some(s@),
        r is None ==> spec_support_precheck(*policy, *head, *repo_state) is None,
{
    if !policy.hidden_only_mode() {
        return Some("checkpoint-mode-unsupported");
    }
    if head.detached {
        return Some("detached-head-unsupported");
    }
    match repo_state.unsupported_reason() {
        Some(reason) => return Some(reason),
        None => {},
    }
    if repo_state.sparse_checkout {
        return Some("sparse-checkout-unsupported");
    }
    None
}

/// Some owned entry of the HEAD tree is a submodule (a gitlink).
pub open spec fn spec_has_owned_gitlink(policy: Policy, entries: Seq<TreeEntry>) -> bool {
    exists|i: int|
        0 <= i < entries.len() && spec_matches_owned_path(policy, (#[trigger] entries[i]).path@)
            && entries[i].kind@ == "commit"@
}

/// Whether the owned part of the HEAD tree holds a submodule.
pub fn has_owned_gitlink(policy: &Policy, entries: &[TreeEntry]) -> (r: bool)
    ensures
        r == spec_has_owned_gitlink(*policy, entries@),
{
    let mut i: usize = 0;
    while i < entries.len()
        invariant
            i <= entries@.len(),
            forall|k: int|
                0 <= k < i ==> !(spec_matches_owned_path(*policy, (#[trigger] entries@[k]).path@)
                    && entries@[k].kind@ == "commit"@),
        decreases entries.len() - i,
    {
        let e = &entries[i];
        if policy.matches_owned_path(&e.path) && str_eq(e.kind.as_str(), "commit") {
            return true;
        }
        i = i + 1;
    }
    false
}

/// Why a repository cannot be checkpointed, checked in this order: the checks of
/// `spec_support_precheck`, then a submodule among the owned entries of the HEAD tree, then
/// a `.gitattributes` file in the worktree.
pub open spec fn spec_repo_support_reason(
    policy: Policy,
    head: HeadState,
    state: RepoState,
    head_entries: Seq<TreeEntry>,
    has_gitattributes: bool,
) -> Option<Seq<char>> {
    if spec_support_precheck(policy, head, state) is Some {
        spec_support_precheck(policy, head, state)
    } else if spec_has_owned_gitlink(policy, head_entries) {
        Some("gitlinks-unsupported"@)
    } else if has_gitattributes {
        Some("gitattributes-unsupported"@)
    } else {
        None
    }
}

/// The reason a hook stops before touching the repository, if any. `head_entries` are the
/// entries of the HEAD tree (none without a HEAD commit); `has_gitattributes` says whether
/// the worktree holds a `.gitattributes` file.
pub fn repo_support_reason(
    policy: &Policy,
    head: &HeadState,
    repo_state: &RepoState,
    head_entries: &[TreeEntry],
    has_gitattributes: bool,
) -> (r: Option<&'static str>)
    ensures
        r matches Some(s) ==> spec_repo_support_reason(
            *policy,
            *head,
            *repo_state,
            head_entries@,
            has_gitattributes,
        ) == Some(s@),
        r is None ==> spec_repo_support_reason(
            *policy,
            *head,
            *repo_state,
            head_entries@,
            has_gitattributes,
        ) is None,
{
    match support_precheck(policy, head, repo_state) {
        Some(reason) => return Some(reason),
        None => {},
    }
    if has_owned_gitlink(policy, head_entries) {
        return Some("gitlinks-unsupported");
    }
    if has_gitattributes {
        return Some("gitattributes-unsupported");
    }
    None
}

/// What the search for `.gitattributes` does with a directory entry.
#[derive(Debug, Clone, Copy, PartialEq, Eq, Structural)]
pub enum WalkStep {
    /// Look inside this directory.
    Descend,
    /// Skip this entry.
    Skip,
    /// A `.gitattributes` file: the repository has one.
    Found,
}

/// Directories other than `.git` and `.sprocket` are searched; a regular file named
/// `.gitattributes` is found; anything else is skipped.
pub open spec fn spec_walk_step(name: Seq<u8>, is_dir: bool, is_file: bool) -> WalkStep {
    if is_dir {
        if name == encode_utf8(".git"@) || name == encode_utf8(".sprocket"@) {
            WalkStep::Skip
        } else {
            WalkStep::Descend
        }
    } else if is_file && name == encode_utf8(".gitattributes"@) {
        WalkStep::Found
    } else {
        WalkStep::Skip
    }
}

fn bytes_equal_str(a: &[u8], b: &str) -> (r: bool)
    ensures
        r == (a@ == encode_utf8(b@)),
{
    let bb = b.as_bytes();
    if a.len() != bb.len() {
        return false;
    }
    let mut i: usize = 0;
    while i < a.len()
        invariant
            a.len() == bb@.len(),
            bb@ == encode_utf8(b@),
            i <= a.len(),
            forall|k: int| 0 <= k < i ==> a@[k] == bb@[k],
        decreases a.len() - i,
    {
        if a[i] != bb[i] {
            assert(a@[i as int] != bb@[i as int]);
            return false;
        }
        i = i + 1;
    }
    assert(a@ =~= bb@);
    true
}

/// One step of the search for `.gitattributes` in the worktree.
pub fn walk_step(name: &[u8], is_dir: bool, is_file: bool) -> (s: WalkStep)
    ensures
        s == spec_walk_step(name@, is_dir, is_file),
{
    if is_dir {
        if bytes_equal_str(name, ".git") || bytes_equal_str(name, ".sprocket") {
            WalkStep::Skip
        } else {
            WalkStep::Descend
        }
    } else if is_file && bytes_equal_str(name, ".gitattributes") {
        WalkStep::Found
    } else {
        WalkStep::Skip
    }
}

/// The event of a hook that stopped because another process holds the lock.
pub fn journal_lock_busy(stream: &StreamIdentity, hook: &str, now: i64) -> (e: JournalEvent)
    ensures
        is_hook_noop(e, now, stream.stream_id@, hook@, "lock-busy"@),
{
    hook_noop(now, stream.stream_id.as_str(), hook, "lock-busy")
}

/// The event of a hook that could not read the policy file.
pub fn invalid_policy_event(stream: &StreamIdentity, hook: &str, now: i64, error: &str) -> (e:
    JournalEvent)
    ensures
        e matches JournalEvent::HookError { ts, stream_id, hook: h, reason } && ts == now
            && stream_id@ == stream.stream_id@ && h@ == hook@ && reason@ == "invalid-policy: "@
            + error@,
{
    let mut reason = String::from_str("invalid-policy: ");
    push_str(&mut reason, error);
    JournalEvent::HookError {
        ts: now,
        stream_id: stream.stream_id.clone(),
        hook: hook.to_string(),
        reason,
    }
}

} // verus!
