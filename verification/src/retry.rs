//! Reconnection policy: exponential backoff, capped per attempt and bounded
//! in the number of attempts; an exhausted policy surfaces as a permanent
//! peer-lost condition.

use vstd::prelude::*;

verus! {

/// The delay before retry number `attempt` (counted from zero): the base
/// delay doubled each attempt, never past the cap.
pub open spec fn spec_backoff(base: u64, cap: u64, attempt: nat) -> u64
    decreases attempt,
{
    if attempt == 0 {
        if base <= cap {
            base
        } else {
            cap
        }
    } else {
        let prev = spec_backoff(base, cap, (attempt - 1) as nat);
        if prev >= cap || prev * 2 > cap {
            cap
        } else {
            (prev * 2) as u64
        }
    }
}

/// The delay never exceeds the cap.
pub proof fn lemma_backoff_capped(base: u64, cap: u64, attempt: nat)
    ensures
        spec_backoff(base, cap, attempt) <= cap,
    decreases attempt,
{
    if attempt > 0 {
        lemma_backoff_capped(base, cap, (attempt - 1) as nat);
    }
}

/// Waiting never gets shorter from one attempt to the next.
pub proof fn lemma_backoff_monotone(base: u64, cap: u64, attempt: nat)
    requires
        attempt > 0,
    ensures
        spec_backoff(base, cap, (attempt - 1) as nat) <= spec_backoff(base, cap, attempt),
    decreases attempt,
{
    lemma_backoff_capped(base, cap, (attempt - 1) as nat);
}

/// A bounded reconnection policy.
#[derive(Clone, Copy, Debug)]
pub struct RetryPolicy {
    pub base_delay_ms: u64,
    pub max_delay_ms: u64,
    pub max_attempts: u32,
}

impl RetryPolicy {
    /// What to do after one more failed connection attempt: wait the backoff
    /// delay and retry, or — once the bounded attempts are spent — give up,
    /// exactly when `attempt >= max_attempts`.
    pub fn next_retry(&self, attempt: u32) -> (r: Option<u64>)
        ensures
            r is Some <==> attempt < self.max_attempts,
            r is Some ==> r->0 == spec_backoff(
                self.base_delay_ms,
                self.max_delay_ms,
                attempt as nat,
            ) && r->0 <= self.max_delay_ms,
    {
        if attempt >= self.max_attempts {
            return None;
        }
        let mut delay: u64 = if self.base_delay_ms <= self.max_delay_ms {
            self.base_delay_ms
        } else {
            self.max_delay_ms
        };
        let mut k: u32 = 0;
        while k < attempt
            invariant
                k <= attempt,
                delay == spec_backoff(self.base_delay_ms, self.max_delay_ms, k as nat),
                delay <= self.max_delay_ms,
            decreases attempt - k,
        {
            if delay >= self.max_delay_ms || delay > self.max_delay_ms / 2 {
                proof {
                    if delay < self.max_delay_ms {
                        assert(delay * 2 > self.max_delay_ms) by (nonlinear_arith)
                            requires
                                delay > self.max_delay_ms / 2,
                        ;
                    }
                }
                delay = self.max_delay_ms;
            } else {
                proof {
                    assert(delay * 2 <= self.max_delay_ms) by (nonlinear_arith)
                        requires
                            delay <= self.max_delay_ms / 2,
                    ;
                }
                delay = delay * 2;
            }
            k += 1;
        }
        Some(delay)
    }
}

} // verus!
