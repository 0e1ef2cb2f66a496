//! The checkpoint decision taken at the end of a turn.
use vstd::prelude::*;

use crate::domain::manager::PendingSource;
use crate::text::str_eq;

verus! {

/// Why nothing is recorded.
#[derive(Debug, Clone, Copy, PartialEq, Eq, Structural)]
pub enum NoopReason {
    MatchesAnchor,
    MissingTurn,
    StreamChanged,
}

/// What to do with the worktree at the end of a turn.
#[derive(Debug, Clone, PartialEq, Eq, Structural)]
pub enum Decision {
    Noop(NoopReason),
    RecordPending { source: PendingSource, changed_paths: u32 },
    Materialize { source: PendingSource, changed_paths: u32 },
}

/// Everything the decision looks at.
pub struct ClassifyInput<'a> {
    pub stream_id_now: &'a str,
    pub stream_id_at_start: &'a str,
    pub now_unix: i64,
    pub anchor_fingerprint: &'a str,
    pub turn_baseline_fingerprint: &'a str,
    pub anchor_fingerprint_at_start: &'a str,
    pub current_fingerprint: &'a str,
    pub global_changed_paths: u32,
    pub pending_turn_count: u32,
    pub pending_first_seen_at: Option<i64>,
    pub turn_threshold: u32,
    pub file_threshold: u32,
    pub age_seconds: i64,
}

/// `a - b`, clamped to the range of `i64`.
pub open spec fn sat_sub_i64(a: i64, b: i64) -> i64 {
    if a - b > i64::MAX {
        i64::MAX
    } else if a - b < i64::MIN {
        i64::MIN
    } else {
        (a - b) as i64
    }
}

/// Saturating subtraction on `i64` (std `i64::saturating_sub`).
pub fn saturating_sub_i64(a: i64, b: i64) -> (r: i64)
    ensures
        r == sat_sub_i64(a, b),
{
    let d: i128 = a as i128 - b as i128;
    if d > i64::MAX as i128 {
        i64::MAX
    } else if d < i64::MIN as i128 {
        i64::MIN
    } else {
        d as i64
    }
}

/// The source of the changes seen at the end of a turn.
pub open spec fn spec_source(dirty_existed_at_turn_start: bool, changed_this_turn: bool) -> PendingSource {
    if !dirty_existed_at_turn_start && changed_this_turn {
        PendingSource::TurnLocal
    } else if dirty_existed_at_turn_start && !changed_this_turn {
        PendingSource::Inherited
    } else if dirty_existed_at_turn_start && changed_this_turn {
        PendingSource::Mixed
    } else {
        PendingSource::External
    }
}

/// How long the pending changes have been around (zero when nothing is pending).
pub open spec fn spec_dirty_age(input: ClassifyInput) -> i64 {
    match input.pending_first_seen_at {
        Some(first) => sat_sub_i64(input.now_unix, first),
        None => 0,
    }
}

/// Some threshold is reached: this turn makes enough turns, enough files changed, or the
/// changes are old enough.
pub open spec fn spec_should_materialize(input: ClassifyInput) -> bool {
    let turns = if input.pending_turn_count == u32::MAX {
        u32::MAX as int
    } else {
        input.pending_turn_count + 1
    };
    turns >= input.turn_threshold || input.global_changed_paths >= input.file_threshold
        || spec_dirty_age(input) >= input.age_seconds
}

/// The decision for a turn.
pub open spec fn spec_classify(input: ClassifyInput) -> Decision {
    if input.stream_id_now@ != input.stream_id_at_start@ {
        Decision::Noop(NoopReason::StreamChanged)
    } else if input.current_fingerprint@ == input.anchor_fingerprint@ {
        Decision::Noop(NoopReason::MatchesAnchor)
    } else {
        let source = spec_source(
            input.turn_baseline_fingerprint@ != input.anchor_fingerprint_at_start@,
            input.current_fingerprint@ != input.turn_baseline_fingerprint@,
        );
        if spec_should_materialize(input) {
            Decision::Materialize { source, changed_paths: input.global_changed_paths }
        } else {
            Decision::RecordPending { source, changed_paths: input.global_changed_paths }
        }
    }
}

/// Decides what to do with the worktree at the end of a turn.
pub fn classify(input: &ClassifyInput<'_>) -> (d: Decision)
    ensures
        d == spec_classify(*input),
{
    if !str_eq(input.stream_id_now, input.stream_id_at_start) {
        return Decision::Noop(NoopReason::StreamChanged);
    }
    if str_eq(input.current_fingerprint, input.anchor_fingerprint) {
        return Decision::Noop(NoopReason::MatchesAnchor);
    }
    let changed_this_turn = !str_eq(input.current_fingerprint, input.turn_baseline_fingerprint);
    let dirty_existed_at_turn_start = !str_eq(
        input.turn_baseline_fingerprint,
        input.anchor_fingerprint_at_start,
    );
    let source = match (dirty_existed_at_turn_start, changed_this_turn) {
        (false, true) => PendingSource::TurnLocal,
        (true, false) => PendingSource::Inherited,
        (true, true) => PendingSource::Mixed,
        (false, false) => PendingSource::External,
    };
    let turns = input.pending_turn_count.saturating_add(1);
    let dirty_age = match input.pending_first_seen_at {
        Some(first_seen_at) => saturating_sub_i64(input.now_unix, first_seen_at),
        None => 0,
    };
    let should_materialize = turns >= input.turn_threshold || input.global_changed_paths
        >= input.file_threshold || dirty_age >= input.age_seconds;
    if should_materialize {
        Decision::Materialize { source, changed_paths: input.global_changed_paths }
    } else {
        Decision::RecordPending { source, changed_paths: input.global_changed_paths }
    }
}

/// A turn that ends on another stream than it started on never records anything.
pub proof fn law_stream_change_is_noop(input: ClassifyInput)
    requires
        input.stream_id_now@ != input.stream_id_at_start@,
    ensures
        spec_classify(input) == Decision::Noop(NoopReason::StreamChanged),
{
}

/// A worktree that matches the anchor needs no checkpoint.
pub proof fn law_matching_anchor_is_noop(input: ClassifyInput)
    requires
        input.stream_id_now@ == input.stream_id_at_start@,
        input.current_fingerprint@ == input.anchor_fingerprint@,
    ensures
        spec_classify(input) == Decision::Noop(NoopReason::MatchesAnchor),
{
}

/// A turn that changed nothing itself, on a worktree that was already dirty, is inherited.
pub proof fn law_unchanged_dirty_turn_is_inherited(input: ClassifyInput)
    requires
        input.stream_id_now@ == input.stream_id_at_start@,
        input.current_fingerprint@ != input.anchor_fingerprint@,
        input.current_fingerprint@ == input.turn_baseline_fingerprint@,
        input.turn_baseline_fingerprint@ != input.anchor_fingerprint_at_start@,
    ensures
        spec_classify(input) matches Decision::Materialize { source, .. } ==> source
            == PendingSource::Inherited,
        spec_classify(input) matches Decision::RecordPending { source, .. } ==> source
            == PendingSource::Inherited,
        !(spec_classify(input) is Noop),
{
}

/// Where a turn's uncommitted changes come from, for a turn that ends on its stream with the
/// worktree away from the anchor: a tree already dirty at the turn's start (its baseline
/// differs from the anchor then) and changed during the turn is mixed; dirty but unchanged
/// is inherited; clean at the start but changed is the turn's own; clean and unchanged means
/// something outside the turn moved the anchor. Either way the decision carries the number
/// of changed paths.
pub proof fn law_turn_source(input: ClassifyInput)
    requires
        input.stream_id_now@ == input.stream_id_at_start@,
        input.current_fingerprint@ != input.anchor_fingerprint@,
    ensures
        ({
            let dirty_at_start = input.turn_baseline_fingerprint@ != input.anchor_fingerprint_at_start@;
            let changed_in_turn = input.current_fingerprint@ != input.turn_baseline_fingerprint@;
            let expected = if dirty_at_start && changed_in_turn {
                PendingSource::Mixed
            } else if dirty_at_start {
                PendingSource::Inherited
            } else if changed_in_turn {
                PendingSource::TurnLocal
            } else {
                PendingSource::External
            };
            ||| spec_classify(input) == Decision::RecordPending {
                source: expected,
                changed_paths: input.global_changed_paths,
            }
            ||| spec_classify(input) == Decision::Materialize {
                source: expected,
                changed_paths: input.global_changed_paths,
            }
        }),
{
}

/// A turn that ends on its stream away from the anchor materializes a checkpoint exactly
/// when, counting this turn, the pending turns reach the turn threshold, or the changed
/// paths reach the file threshold, or the pending changes are at least the age threshold
/// old (with nothing pending they count as zero seconds old); otherwise it is recorded as
/// pending.
pub proof fn law_turn_thresholds(input: ClassifyInput)
    requires
        input.stream_id_now@ == input.stream_id_at_start@,
        input.current_fingerprint@ != input.anchor_fingerprint@,
        input.age_seconds >= 0,
    ensures
        (spec_classify(input) is Materialize) <==> (input.pending_turn_count + 1 >= input.turn_threshold
            || input.global_changed_paths >= input.file_threshold || (match input.pending_first_seen_at {
            Some(first) => input.now_unix - first,
            None => 0,
        }) >= input.age_seconds),
        (spec_classify(input) is Materialize) || (spec_classify(input) is RecordPending),
{
    match input.pending_first_seen_at {
        Some(first) => {
            assert(spec_dirty_age(input) == sat_sub_i64(input.now_unix, first));
            assert((sat_sub_i64(input.now_unix, first) >= input.age_seconds) == (input.now_unix - first
                >= input.age_seconds));
        },
        None => {
            assert(spec_dirty_age(input) == 0);
        },
    }
}

/// Once a turn materializes, more pending turns or more changed files would too.
pub proof fn law_materialize_is_monotone(a: ClassifyInput, b: ClassifyInput)
    requires
        spec_classify(a) is Materialize,
        b.stream_id_now@ == a.stream_id_now@,
        b.stream_id_at_start@ == a.stream_id_at_start@,
        b.current_fingerprint@ == a.current_fingerprint@,
        b.anchor_fingerprint@ == a.anchor_fingerprint@,
        b.now_unix == a.now_unix,
        b.pending_first_seen_at == a.pending_first_seen_at,
        b.pending_turn_count >= a.pending_turn_count,
        b.global_changed_paths >= a.global_changed_paths,
        b.turn_threshold == a.turn_threshold,
        b.file_threshold == a.file_threshold,
        b.age_seconds == a.age_seconds,
    ensures
        spec_classify(b) is Materialize,
{
}

} // verus!
