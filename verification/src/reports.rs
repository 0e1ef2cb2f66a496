//! The reports that `sprocket session` prints: a session's tracker, and a commit plan.
use vstd::prelude::*;

use crate::domain::session_tracker::{
    BlockedPath, CommitBlockReason, CommitPlan, PathClaimState, SessionTracker,
    SessionTrackerStatus, TrackedPath,
};
use crate::gitparse::{decode_lossy, utf8_lossy};
use crate::guard::string_views;
use crate::order::{char_key, keys, sort_stable, sorted, SortKey};

verus! {

/// The word a claim state is reported as.
pub open spec fn claim_word(c: PathClaimState) -> Seq<char> {
    match c {
        PathClaimState::Exclusive => "exclusive"@,
        PathClaimState::InheritedDirty => "inheriteddirty"@,
        PathClaimState::Contended => "contended"@,
        PathClaimState::ExternalInterference => "externalinterference"@,
    }
}

fn claim_word_exec(c: PathClaimState) -> (s: &'static str)
    ensures
        s@ == claim_word(c),
{
    match c {
        PathClaimState::Exclusive => "exclusive",
        PathClaimState::InheritedDirty => "inheriteddirty",
        PathClaimState::Contended => "contended",
        PathClaimState::ExternalInterference => "externalinterference",
    }
}

/// The word a tracker status is reported as.
pub open spec fn status_word(s: SessionTrackerStatus) -> Seq<char> {
    match s {
        SessionTrackerStatus::Active => "active"@,
        SessionTrackerStatus::Blocked => "blocked"@,
        SessionTrackerStatus::Committing => "committing"@,
    }
}

fn status_word_exec(s: &SessionTrackerStatus) -> (w: &'static str)
    ensures
        w@ == status_word(*s),
{
    match s {
        SessionTrackerStatus::Active => "active",
        SessionTrackerStatus::Blocked => "blocked",
        SessionTrackerStatus::Committing => "committing",
    }
}

/// The name a blocking reason is reported as.
pub open spec fn reason_name(r: CommitBlockReason) -> Seq<char> {
    match r {
        CommitBlockReason::UnstableSessionId => "unstable_session_id"@,
        CommitBlockReason::MissingTracker => "missing_tracker"@,
        CommitBlockReason::HeadMoved => "head_moved"@,
        CommitBlockReason::StagedChangesPresent => "staged_changes_present"@,
        CommitBlockReason::UnsupportedRepoState => "unsupported_repo_state"@,
        CommitBlockReason::ThresholdsNotMet => "thresholds_not_met"@,
        CommitBlockReason::PathInheritedDirty => "path_inherited_dirty"@,
        CommitBlockReason::PathContended => "path_contended"@,
        CommitBlockReason::ExternalInterference => "external_interference"@,
    }
}

/// The name of a blocking reason.
pub fn reason_to_string(reason: &CommitBlockReason) -> (s: String)
    ensures
        s@ == reason_name(*reason),
{
    let w = match reason {
        CommitBlockReason::UnstableSessionId => "unstable_session_id",
        CommitBlockReason::MissingTracker => "missing_tracker",
        CommitBlockReason::HeadMoved => "head_moved",
        CommitBlockReason::StagedChangesPresent => "staged_changes_present",
        CommitBlockReason::UnsupportedRepoState => "unsupported_repo_state",
        CommitBlockReason::ThresholdsNotMet => "thresholds_not_met",
        CommitBlockReason::PathInheritedDirty => "path_inherited_dirty",
        CommitBlockReason::PathContended => "path_contended",
        CommitBlockReason::ExternalInterference => "external_interference",
    };
    w.to_string()
}

fn copy_strings(v: &Vec<String>) -> (r: Vec<String>)
    ensures
        string_views(r@) == string_views(v@),
{
    let mut r: Vec<String> = Vec::new();
    let mut i: usize = 0;
    while i < v.len()
        invariant
            i <= v@.len(),
            string_views(r@) == string_views(v@.take(i as int)),
        decreases v.len() - i,
    {
        let ghost before = r@;
        r.push(v[i].clone());
        assert(string_views(r@) =~= string_views(before).push(v@[i as int]@));
        assert(v@.take(i + 1) =~= v@.take(i as int).push(v@[i as int]));
        assert(string_views(v@.take(i + 1)) =~= string_views(v@.take(i as int)).push(v@[i as int]@));
        i = i + 1;
    }
    assert(v@.take(v@.len() as int) =~= v@);
    r
}

/// One touched path in a status report.
#[derive(Debug, Clone)]
pub struct TrackedPathReport {
    pub path: String,
    pub claim_state: String,
    pub other_sessions: Vec<String>,
}

impl SortKey for TrackedPathReport {
    open spec fn key(&self) -> Seq<int> {
        char_key(self.path@)
    }

    fn compare_key(&self, other: &Self) -> (r: i8) {
        self.path.compare_key(&other.path)
    }
}

/// The report of a touched path: its path as text, its claim, the other sessions.
pub open spec fn is_path_report(r: TrackedPathReport, t: TrackedPath) -> bool {
    &&& r.path@ == utf8_lossy(t.path@)
    &&& r.claim_state@ == claim_word(t.state.claim_state)
    &&& string_views(r.other_sessions@) == string_views(t.state.other_sessions@)
}

/// The status of a session's tracker.
#[derive(Debug, Clone)]
pub struct SessionStatusReport {
    pub found: bool,
    pub session_id: Option<String>,
    pub stream_id: Option<String>,
    pub epoch: Option<u32>,
    pub status: Option<String>,
    pub touched_paths: Vec<TrackedPathReport>,
}

/// The reports of a tracker's paths, sorted by path text: some report of each path, in
/// some order, sorted.
pub open spec fn reports_paths(rs: Seq<TrackedPathReport>, ts: Seq<TrackedPath>) -> bool {
    &&& sorted(keys(rs))
    &&& exists|b: Seq<TrackedPathReport>|
        #![trigger b.to_multiset()]
        b.len() == ts.len() && (forall|j: int| 0 <= j < ts.len() ==> is_path_report(#[trigger] b[j], ts[j]))
            && rs.to_multiset() == b.to_multiset()
}

impl SessionStatusReport {
    /// The status report of a session's tracker, or of a session without one.
    pub fn from_tracker(tracker: Option<&SessionTracker>) -> (r: Self)
        ensures
            match tracker {
                None => !r.found && r.session_id is None && r.stream_id is None && r.epoch is None
                    && r.status is None && r.touched_paths@.len() == 0,
                Some(t) => {
                    &&& r.found
                    &&& r.session_id matches Some(s) && s@ == t.session_id@
                    &&& r.stream_id matches Some(s) && s@ == t.stream_id@
                    &&& r.epoch == Some(t.epoch)
                    &&& r.status matches Some(s) && s@ == status_word(t.status)
                    &&& reports_paths(r.touched_paths@, t.touched_paths@)
                },
            },
    {
        let t = match tracker {
            None => {
                return SessionStatusReport {
                    found: false,
                    session_id: None,
                    stream_id: None,
                    epoch: None,
                    status: None,
                    touched_paths: Vec::new(),
                };
            },
            Some(t) => t,
        };
        let mut built: Vec<TrackedPathReport> = Vec::new();
        let mut i: usize = 0;
        while i < t.touched_paths.len()
            invariant
                i <= t.touched_paths@.len(),
                built@.len() == i,
                forall|j: int| 0 <= j < i ==> is_path_report(#[trigger] built@[j], t.touched_paths@[j]),
            decreases t.touched_paths.len() - i,
        {
            let tp = &t.touched_paths[i];
            let report = TrackedPathReport {
                path: decode_lossy(tp.path.as_bytes()),
                claim_state: claim_word_exec(tp.state.claim_state).to_string(),
                other_sessions: copy_strings(&tp.state.other_sessions),
            };
            built.push(report);
            i = i + 1;
        }
        let ghost b = built@;
        let touched_paths = sort_stable(built);
        SessionStatusReport {
            found: true,
            session_id: Some(t.session_id.clone()),
            stream_id: Some(t.stream_id.clone()),
            epoch: Some(t.epoch),
            status: Some(status_word_exec(&t.status).to_string()),
            touched_paths,
        }
    }
}

/// One blocked path in a plan report.
#[derive(Debug, Clone)]
pub struct BlockedPathReport {
    pub path: String,
    pub reasons: Vec<String>,
}

impl SortKey for BlockedPathReport {
    open spec fn key(&self) -> Seq<int> {
        char_key(self.path@)
    }

    fn compare_key(&self, other: &Self) -> (r: i8) {
        self.path.compare_key(&other.path)
    }
}

/// The names of reasons.
pub open spec fn reason_names(rs: Seq<CommitBlockReason>) -> Seq<Seq<char>> {
    rs.map_values(|r: CommitBlockReason| reason_name(r))
}

fn names_of_reasons(rs: &Vec<CommitBlockReason>) -> (r: Vec<String>)
    ensures
        string_views(r@) == reason_names(rs@),
{
    let mut r: Vec<String> = Vec::new();
    let mut i: usize = 0;
    while i < rs.len()
        invariant
            i <= rs@.len(),
            string_views(r@) == reason_names(rs@.take(i as int)),
        decreases rs.len() - i,
    {
        let ghost before = r@;
        let name = reason_to_string(&rs[i]);
        r.push(name);
        assert(string_views(r@) =~= string_views(before).push(reason_name(rs@[i as int])));
        assert(rs@.take(i + 1) =~= rs@.take(i as int).push(rs@[i as int]));
        assert(reason_names(rs@.take(i + 1)) =~= reason_names(rs@.take(i as int)).push(
            reason_name(rs@[i as int]),
        ));
        i = i + 1;
    }
    assert(rs@.take(rs@.len() as int) =~= rs@);
    r
}

impl BlockedPathReport {
    /// The report of a blocked path: its path as text and its reasons' names.
    pub fn from_blocked(blocked: &BlockedPath) -> (r: Self)
        ensures
            r.path@ == utf8_lossy(blocked.path@),
            string_views(r.reasons@) == reason_names(blocked.reasons@),
    {
        BlockedPathReport {
            path: decode_lossy(blocked.path.as_bytes()),
            reasons: names_of_reasons(&blocked.reasons),
        }
    }
}

/// A commit plan as printed.
#[derive(Debug, Clone)]
pub struct SessionCommitPlanReport {
    pub session_id: String,
    pub stream_id: String,
    pub epoch: u32,
    pub thresholds_met: bool,
    pub safe_to_commit: bool,
    pub eligible_paths: Vec<String>,
    pub blocked_paths: Vec<BlockedPathReport>,
    pub blocking_reasons: Vec<String>,
}

/// The report of a blocked path.
pub open spec fn is_blocked_report(r: BlockedPathReport, b: BlockedPath) -> bool {
    r.path@ == utf8_lossy(b.path@) && string_views(r.reasons@) == reason_names(b.reasons@)
}

impl SessionCommitPlanReport {
    /// The printed form of a plan: eligible paths as text, sorted; blocked paths reported
    /// and sorted by path text; reasons by name.
    pub fn from_plan(plan: &CommitPlan) -> (r: Self)
        ensures
            r.session_id@ == plan.session_id@,
            r.stream_id@ == plan.stream_id@,
            r.epoch == plan.epoch,
            r.thresholds_met == plan.thresholds_met,
            r.safe_to_commit == plan.safe_to_commit,
            sorted(keys(r.eligible_paths@)),
            exists|e: Seq<String>|
                #![trigger e.to_multiset()]
                e.len() == plan.eligible_paths@.len() && (forall|j: int|
                    0 <= j < e.len() ==> (#[trigger] e[j])@ == utf8_lossy(plan.eligible_paths@[j]@))
                    && r.eligible_paths@.to_multiset() == e.to_multiset(),
            sorted(keys(r.blocked_paths@)),
            exists|b: Seq<BlockedPathReport>|
                #![trigger b.to_multiset()]
                b.len() == plan.blocked_paths@.len() && (forall|j: int|
                    0 <= j < b.len() ==> is_blocked_report(#[trigger] b[j], plan.blocked_paths@[j]))
                    && r.blocked_paths@.to_multiset() == b.to_multiset(),
            string_views(r.blocking_reasons@) == reason_names(plan.blocking_reasons@),
    {
        let mut eligible: Vec<String> = Vec::new();
        let mut i: usize = 0;
        while i < plan.eligible_paths.len()
            invariant
                i <= plan.eligible_paths@.len(),
                eligible@.len() == i,
                forall|j: int|
                    0 <= j < i ==> (#[trigger] eligible@[j])@ == utf8_lossy(plan.eligible_paths@[j]@),
            decreases plan.eligible_paths.len() - i,
        {
            eligible.push(decode_lossy(plan.eligible_paths[i].as_bytes()));
            i = i + 1;
        }
        let ghost e = eligible@;
        let eligible_paths = sort_stable(eligible);
        let mut blocked: Vec<BlockedPathReport> = Vec::new();
        let mut k: usize = 0;
        while k < plan.blocked_paths.len()
            invariant
                k <= plan.blocked_paths@.len(),
                blocked@.len() == k,
                forall|j: int| 0 <= j < k ==> is_blocked_report(#[trigger] blocked@[j], plan.blocked_paths@[j]),
            decreases plan.blocked_paths.len() - k,
        {
            blocked.push(BlockedPathReport::from_blocked(&plan.blocked_paths[k]));
            k = k + 1;
        }
        let ghost b = blocked@;
        let blocked_paths = sort_stable(blocked);
        SessionCommitPlanReport {
            session_id: plan.session_id.clone(),
            stream_id: plan.stream_id.clone(),
            epoch: plan.epoch,
            thresholds_met: plan.thresholds_met,
            safe_to_commit: plan.safe_to_commit,
            eligible_paths,
            blocked_paths,
            blocking_reasons: names_of_reasons(&plan.blocking_reasons),
        }
    }
}

} // verus!
