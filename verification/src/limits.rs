//! Process resource limits.

use vstd::prelude::*;

verus! {

/// Soft limit on open files that the gateway asks for at startup.
pub const NOFILE_GOAL: u64 = 4096;

/// The soft limit to request, given the current soft and hard limits:
/// the goal capped by the hard limit, and only when that raises the soft limit.
pub open spec fn nofile_raise(soft: u64, hard: u64) -> Option<u64> {
    let target = if hard < NOFILE_GOAL { hard } else { NOFILE_GOAL };
    if soft < target { Some(target) } else { None }
}

/// Decides whether the soft open-file limit should be raised, and to what.
pub fn nofile_target(soft: u64, hard: u64) -> (target: Option<u64>)
    ensures
        target == nofile_raise(soft, hard),
{
    let target: u64 = if hard < NOFILE_GOAL { hard } else { NOFILE_GOAL };
    if soft < target {
        Some(target)
    } else {
        None
    }
}

} // verus!
