//! Per-session tracking of touched paths, and the plans for committing them.
use vstd::prelude::*;

use crate::domain::decision::{sat_sub_i64, saturating_sub_i64};
use crate::domain::manifest::{EntryView, StrictEntry};
use crate::domain::repopath::RepoPath;
use crate::order::{byte_key, SortKey};

verus! {

pub const SESSION_TRACKER_VERSION: u32 = 1;

/// Where a session's tracker stands.
#[derive(Debug, Clone, PartialEq, Eq, Structural)]
pub enum SessionTrackerStatus {
    Active,
    Blocked,
    Committing,
}

/// Whether a session may claim a touched path.
#[derive(Debug, Clone, Copy, PartialEq, Eq, Structural)]
pub enum PathClaimState {
    Exclusive,
    InheritedDirty,
    Contended,
    ExternalInterference,
}

/// What a session knows about one path it touched.
#[derive(Debug, Clone)]
pub struct TrackedPathState {
    pub first_touched_at: i64,
    pub last_touched_at: i64,
    pub first_turn_id: String,
    pub last_turn_id: String,
    pub claim_state: PathClaimState,
    pub start_head_oid: Option<String>,
    pub start_worktree_oid: Option<String>,
    pub current_oid: Option<String>,
    pub claimed_by_session: String,
    pub other_sessions: Vec<String>,
}

/// A touched path with its state.
#[derive(Debug, Clone)]
pub struct TrackedPath {
    pub path: RepoPath,
    pub state: TrackedPathState,
}

impl SortKey for TrackedPath {
    open spec fn key(&self) -> Seq<int> {
        byte_key(self.path@)
    }

    fn compare_key(&self, other: &Self) -> (r: i8) {
        self.path.compare_key(&other.path)
    }
}

/// The tracker of one session on one stream. Touched paths are kept sorted by path, one
/// record per path.
#[derive(Debug, Clone)]
pub struct SessionTracker {
    pub version: u32,
    pub session_id: String,
    pub stream_id: String,
    pub epoch: u32,
    pub status: SessionTrackerStatus,
    pub start_head_oid: Option<String>,
    pub start_head_manifest_id: String,
    pub epoch_start_worktree_manifest_id: String,
    pub last_seen_manifest_id: String,
    pub first_dirty_at: Option<i64>,
    pub last_dirty_at: Option<i64>,
    pub turn_count_since_reset: u32,
    pub touched_paths: Vec<TrackedPath>,
}

/// Why a session's changes cannot be committed (declared in the order reasons are listed).
#[derive(Debug, Clone, Copy, PartialEq, Eq, Structural)]
pub enum CommitBlockReason {
    UnstableSessionId,
    MissingTracker,
    HeadMoved,
    StagedChangesPresent,
    UnsupportedRepoState,
    ThresholdsNotMet,
    PathInheritedDirty,
    PathContended,
    ExternalInterference,
}

/// The position of a reason in the declared order.
pub open spec fn reason_rank(r: CommitBlockReason) -> int {
    match r {
        CommitBlockReason::UnstableSessionId => 0,
        CommitBlockReason::MissingTracker => 1,
        CommitBlockReason::HeadMoved => 2,
        CommitBlockReason::StagedChangesPresent => 3,
        CommitBlockReason::UnsupportedRepoState => 4,
        CommitBlockReason::ThresholdsNotMet => 5,
        CommitBlockReason::PathInheritedDirty => 6,
        CommitBlockReason::PathContended => 7,
        CommitBlockReason::ExternalInterference => 8,
    }
}

pub fn reason_rank_exec(r: CommitBlockReason) -> (n: u8)
    ensures
        n as int == reason_rank(r),
{
    match r {
        CommitBlockReason::UnstableSessionId => 0,
        CommitBlockReason::MissingTracker => 1,
        CommitBlockReason::HeadMoved => 2,
        CommitBlockReason::StagedChangesPresent => 3,
        CommitBlockReason::UnsupportedRepoState => 4,
        CommitBlockReason::ThresholdsNotMet => 5,
        CommitBlockReason::PathInheritedDirty => 6,
        CommitBlockReason::PathContended => 7,
        CommitBlockReason::ExternalInterference => 8,
    }
}

impl SortKey for CommitBlockReason {
    open spec fn key(&self) -> Seq<int> {
        seq![reason_rank(*self)]
    }

    fn compare_key(&self, other: &Self) -> (r: i8) {
        let a = reason_rank_exec(*self);
        let b = reason_rank_exec(*other);
        proof {
            assert(seq![reason_rank(*self)].drop_first() =~= Seq::<int>::empty());
            assert(seq![reason_rank(*other)].drop_first() =~= Seq::<int>::empty());
            reveal_with_fuel(crate::order::lex_lt, 2);
        }
        if a < b {
            -1
        } else if a > b {
            1
        } else {
            0
        }
    }
}

/// A path a plan cannot commit, with its reasons.
#[derive(Debug, Clone)]
pub struct BlockedPath {
    pub path: RepoPath,
    pub reasons: Vec<CommitBlockReason>,
}

/// Which of a session's touched paths could be committed now, and what blocks the rest.
#[derive(Debug, Clone)]
pub struct CommitPlan {
    pub version: u32,
    pub session_id: String,
    pub stream_id: String,
    pub epoch: u32,
    pub thresholds_met: bool,
    pub safe_to_commit: bool,
    pub eligible_paths: Vec<RepoPath>,
    pub blocked_paths: Vec<BlockedPath>,
    pub blocking_reasons: Vec<CommitBlockReason>,
}

/// What the session thresholds look at.
#[derive(Debug, Clone, PartialEq, Eq)]
pub struct SessionThresholdInput {
    pub turn_count_since_reset: u32,
    pub exclusive_path_count: u32,
    pub first_dirty_at: Option<i64>,
    pub now_unix: i64,
    pub turn_threshold: u32,
    pub file_threshold: u32,
    pub age_seconds: i64,
}

/// Enough turns, enough exclusively held files, or dirty for long enough.
pub open spec fn spec_thresholds_met(input: SessionThresholdInput) -> bool {
    let dirty_age = match input.first_dirty_at {
        Some(first) => sat_sub_i64(input.now_unix, first),
        None => 0,
    };
    input.turn_count_since_reset >= input.turn_threshold || input.exclusive_path_count
        >= input.file_threshold || dirty_age >= input.age_seconds
}

/// Whether a session has reached one of its commit thresholds.
pub fn thresholds_met(input: &SessionThresholdInput) -> (r: bool)
    ensures
        r == spec_thresholds_met(*input),
{
    let dirty_age = match input.first_dirty_at {
        Some(first_seen) => saturating_sub_i64(input.now_unix, first_seen),
        None => 0,
    };
    input.turn_count_since_reset >= input.turn_threshold || input.exclusive_path_count
        >= input.file_threshold || dirty_age >= input.age_seconds
}

/// The blob id of an optional entry view.
pub open spec fn spec_entry_oid(e: Option<EntryView>) -> Option<Seq<char>> {
    match e {
        Some(x) => Some(x.git_oid),
        None => None,
    }
}

/// The text of an optional string.
pub open spec fn opt_text(s: Option<String>) -> Option<Seq<char>> {
    match s {
        Some(x) => Some(x@),
        None => None,
    }
}

/// The blob id of an optional entry.
pub fn entry_oid(entry: Option<&StrictEntry>) -> (r: Option<String>)
    ensures
        opt_text(r) == spec_entry_oid(
            match entry {
                Some(e) => Some(e@),
                None => None,
            },
        ),
{
    match entry {
        Some(current) => Some(current.git_oid.clone()),
        None => None,
    }
}

/// With no dirty time recorded, only turns or exclusive files can meet the thresholds.
pub proof fn law_thresholds_need_turns_files_or_age(input: SessionThresholdInput)
    requires
        input.turn_count_since_reset < input.turn_threshold,
        input.exclusive_path_count < input.file_threshold,
        input.first_dirty_at is None,
        input.age_seconds > 0,
    ensures
        !spec_thresholds_met(input),
{
}

} // verus!
