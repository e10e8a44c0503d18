//! Which failures are tried again, how often, and after what delay.

use vstd::prelude::*;

verus! {

/// The kinds of failure of one attempt to run a block.
#[derive(Clone, Copy, Debug, PartialEq, Eq, Structural)]
pub enum ErrorKind {
    /// The provider asks for fewer requests.
    RateLimited,
    /// The provider refuses the request as it is.
    InvalidRequest,
    /// The provider cannot be reached or is out of service.
    ProviderUnavailable,
    /// The call did not answer in time.
    Timeout,
    /// The block's own code failed, or its configuration is malformed.
    Execution,
}

/// The failures that another attempt may cure.
pub open spec fn retryable(kind: ErrorKind) -> bool {
    kind == ErrorKind::RateLimited || kind == ErrorKind::ProviderUnavailable || kind
        == ErrorKind::Timeout
}

/// Whether another attempt may cure the failure.
pub fn is_retryable(kind: ErrorKind) -> (retry: bool)
    ensures
        retry == retryable(kind),
{
    match kind {
        ErrorKind::RateLimited => true,
        ErrorKind::ProviderUnavailable => true,
        ErrorKind::Timeout => true,
        ErrorKind::InvalidRequest => false,
        ErrorKind::Execution => false,
    }
}

/// How one invocation is tried again.
#[derive(Clone, Copy, Debug, PartialEq, Eq, Structural)]
pub struct RetryPolicy {
    /// The attempts that one invocation may take in all, the first one
    /// counted. The first attempt is made whatever this says.
    pub max_attempts: u32,
    /// The delay before the first retry, in milliseconds.
    pub base_delay_ms: u64,
    /// The longest delay before any retry, in milliseconds.
    pub max_delay_ms: u64,
}

/// The delay before an attempt that comes after `failures` failed ones:
/// none before the first attempt, the base delay before the first retry,
/// then twice the delay before, and never more than the longest delay.
pub open spec fn backoff(policy: RetryPolicy, failures: nat) -> nat
    decreases failures,
{
    if failures == 0 {
        0
    } else if failures == 1 {
        if policy.base_delay_ms <= policy.max_delay_ms {
            policy.base_delay_ms as nat
        } else {
            policy.max_delay_ms as nat
        }
    } else {
        let before = backoff(policy, (failures - 1) as nat);
        if 2 * before <= policy.max_delay_ms {
            2 * before
        } else {
            policy.max_delay_ms as nat
        }
    }
}

/// Whether an invocation that has failed `failures` times before, and now
/// fails with `kind`, is tried again.
pub open spec fn tries_again(policy: RetryPolicy, failures: u32, kind: ErrorKind) -> bool {
    retryable(kind) && failures + 1 < policy.max_attempts
}

/// Once the delay has reached the longest delay it stays there.
pub proof fn lemma_backoff_stays(policy: RetryPolicy, from: nat, to: nat)
    requires
        1 <= from <= to,
        backoff(policy, from) == policy.max_delay_ms,
    ensures
        backoff(policy, to) == policy.max_delay_ms,
    decreases to - from,
{
    if from < to {
        lemma_backoff_stays(policy, from, (to - 1) as nat);
    }
}

/// Once the delay is zero it stays zero.
pub proof fn lemma_backoff_zero(policy: RetryPolicy, from: nat, to: nat)
    requires
        1 <= from <= to,
        backoff(policy, from) == 0,
    ensures
        backoff(policy, to) == 0,
    decreases to - from,
{
    if from < to {
        lemma_backoff_zero(policy, from, (to - 1) as nat);
    }
}

/// No delay is longer than the longest delay.
pub proof fn lemma_backoff_bounded(policy: RetryPolicy, failures: nat)
    ensures
        backoff(policy, failures) <= policy.max_delay_ms,
    decreases failures,
{
    if failures > 1 {
        lemma_backoff_bounded(policy, (failures - 1) as nat);
    }
}

/// The delay before an attempt that comes after `failures` failed ones.
pub fn backoff_delay(policy: &RetryPolicy, failures: u32) -> (delay: u64)
    ensures
        delay == backoff(*policy, failures as nat),
{
    if failures == 0 {
        return 0;
    }
    let limit = policy.max_delay_ms;
    let mut delay: u64 = if policy.base_delay_ms <= limit {
        policy.base_delay_ms
    } else {
        limit
    };
    let mut done: u32 = 1;
    while done < failures && 0 < delay && delay < limit
        invariant
            1 <= done <= failures,
            limit == policy.max_delay_ms,
            delay == backoff(*policy, done as nat),
            delay <= limit,
        decreases failures - done,
    {
        if delay <= limit / 2 {
            delay = delay * 2;
        } else {
            delay = limit;
        }
        done += 1;
    }
    proof {
        if done < failures {
            if delay == 0 {
                lemma_backoff_zero(*policy, done as nat, failures as nat);
            } else {
                lemma_backoff_stays(*policy, done as nat, failures as nat);
            }
        }
    }
    delay
}

} // verus!
