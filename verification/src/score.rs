//! Turning a replay into the final score.
//!
//! The score of a successful replay is
//! `max(1, round(1_000_000 * (log2(before) - log2(after))))`, where `before`
//! and `after` are the roughness of the grid before and after the replay.
//! The logarithm lives outside this crate (it is floating-point work); the
//! caller computes the rounded scaled difference `ratio` and this module,
//! given that number, fixes everything else the scoring rule says: a failed
//! replay scores 0, a zero roughness on either side forces score 1, and the
//! score of a successful replay is never below 1.

use vstd::prelude::*;

use crate::sim::SimError;

verus! {

/// The final score determined by a failure report, the two roughness values
/// and the rounded scaled log-ratio `ratio`.
pub open spec fn spec_final_score(err: Option<SimError>, before: int, after: int, ratio: int) -> int {
    if err is Some {
        0
    } else if before == 0 || after == 0 {
        1
    } else if ratio < 1 {
        1
    } else {
        ratio
    }
}

/// Combines a replay's outcome with the caller-computed rounded scaled
/// log-ratio of `before` to `after` into the final score.
pub fn finish_score(err: &Option<SimError>, before: i64, after: i64, ratio: i64) -> (score: i64)
    ensures
        score == spec_final_score(*err, before as int, after as int, ratio as int),
        err is Some ==> score == 0,
        err is None ==> score >= 1,
{
    if err.is_some() {
        0
    } else if before == 0 || after == 0 {
        1
    } else if ratio < 1 {
        1
    } else {
        ratio
    }
}

} // verus!
