//! The report worker's decision after a failed render: retry after an
//! exponentially growing delay, or give up and flag the experiment, which
//! stays completed either way.
use vstd::prelude::*;

verus! {

#[derive(Clone, Copy, Debug, PartialEq, Eq, Structural)]
pub enum ReportStep {
    /// Render again after this many seconds.
    Retry { delay_secs: u64 },
    /// Stop retrying and flag the experiment's report as failed.
    GiveUp,
}

/// `base` doubled `n` times.
pub open spec fn backoff(base: nat, n: nat) -> nat
    decreases n,
{
    if n == 0 {
        base
    } else {
        2 * backoff(base, (n - 1) as nat)
    }
}

pub open spec fn capped(x: nat) -> nat {
    if x > u64::MAX {
        u64::MAX as nat
    } else {
        x
    }
}

/// What to do after render attempt number `attempt` (counting from zero)
/// failed: give up once `max_attempts` attempts were made, else wait
/// `base_delay_secs` doubled once per earlier attempt, capped at `u64::MAX`.
pub fn after_render_failure(attempt: u32, max_attempts: u32, base_delay_secs: u64) -> (r: ReportStep)
    ensures
        attempt as int + 1 >= max_attempts ==> r == ReportStep::GiveUp,
        attempt as int + 1 < max_attempts ==> r == (ReportStep::Retry {
            delay_secs: capped(backoff(base_delay_secs as nat, attempt as nat)) as u64,
        }),
{
    if attempt as u64 + 1 >= max_attempts as u64 {
        return ReportStep::GiveUp;
    }
    let mut d: u64 = base_delay_secs;
    let mut k: u32 = 0;
    while k < attempt
        invariant
            k <= attempt,
            d as nat == capped(backoff(base_delay_secs as nat, k as nat)),
        decreases attempt - k,
    {
        if d > u64::MAX / 2 {
            d = u64::MAX;
        } else {
            d = d * 2;
        }
        k = k + 1;
    }
    ReportStep::Retry { delay_secs: d }
}

} // verus!
