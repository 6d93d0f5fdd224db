//! Retry policy with exponential backoff: the delay doubles from one retry
//! to the next, up to a ceiling.
use vstd::prelude::*;
use vstd::arithmetic::power2::pow2;

verus! {

/// Retry policy. Delays are in milliseconds.
#[derive(Debug, Clone)]
pub struct RetryPolicy {
    /// How many times a failed run is retried.
    pub max_retries: u32,
    /// Delay before the first retry.
    pub base_delay: u64,
    /// Ceiling of the delay.
    pub max_delay: u64,
}

/// `base * 2^(attempt - 1)` (the exponent capped at 31), saturated to
/// `u64::MAX`, then capped at `max`; zero for attempt 0.
pub open spec fn delay_spec(base: u64, max: u64, attempt: u32) -> u64 {
    if attempt == 0 {
        0
    } else {
        let k: nat = if attempt - 1 < 31 { (attempt - 1) as nat } else { 31 };
        let raw: int = base * pow2(k);
        let saturated: int = if raw > u64::MAX { u64::MAX as int } else { raw };
        (if saturated < max { saturated } else { max as int }) as u64
    }
}

impl RetryPolicy {
    /// `max_retries` retries, starting at 5 s and doubling up to 60 s.
    pub fn new(max_retries: u32) -> (p: RetryPolicy)
        ensures
            p.max_retries == max_retries,
            p.base_delay == 5000,
            p.max_delay == 60000,
    {
        RetryPolicy { max_retries, base_delay: 5000, max_delay: 60000 }
    }

    /// No retry at all.
    pub fn no_retry() -> (p: RetryPolicy)
        ensures
            p.max_retries == 0,
            p.base_delay == 5000,
            p.max_delay == 60000,
    {
        Self::new(0)
    }

    /// Delay before retry number `attempt` (counted from 1), in
    /// milliseconds; 0 for `attempt == 0`.
    pub fn delay_for(&self, attempt: u32) -> (d: u64)
        ensures
            d == delay_spec(self.base_delay, self.max_delay, attempt),
    {
        if attempt == 0 {
            return 0;
        }
        let shift: u64 = if attempt - 1 < 31 { (attempt - 1) as u64 } else { 31 };
        proof {
            vstd::bits::lemma_u64_pow2_no_overflow(shift as nat);
            assert(pow2(shift as nat) <= 0x8000_0000) by {
                vstd::arithmetic::power2::lemma_pow2_strictly_increases(shift as nat, 32);
                vstd::arithmetic::power2::lemma2_to64();
            }
            vstd::bits::lemma_u64_shl_is_mul(1, shift);
        }
        let factor: u64 = 1u64 << shift;
        let raw: u64 = match self.base_delay.checked_mul(factor) {
            Some(v) => v,
            None => u64::MAX,
        };
        if raw < self.max_delay {
            raw
        } else {
            self.max_delay
        }
    }

    /// Whether a retry is still allowed after `attempts_done` retries.
    pub fn should_retry(&self, attempts_done: u32) -> (b: bool)
        ensures
            b == (attempts_done < self.max_retries),
    {
        attempts_done < self.max_retries
    }
}

impl Default for RetryPolicy {
    fn default() -> (p: RetryPolicy)
        ensures
            p.max_retries == 0,
            p.base_delay == 5000,
            p.max_delay == 60000,
    {
        Self::new(0)
    }
}

// ---------------------------------------------------------------------------
// Laws of the backoff
// ---------------------------------------------------------------------------

/// No delay exceeds the ceiling.
pub proof fn law_delay_capped(base: u64, max: u64, attempt: u32)
    ensures
        delay_spec(base, max, attempt) <= max,
{
}

/// The first retry waits the base delay, when it is below the ceiling.
pub proof fn law_first_delay(base: u64, max: u64)
    requires
        base <= max,
    ensures
        delay_spec(base, max, 1) == base,
{
    vstd::arithmetic::power2::lemma2_to64();
    assert(pow2(0) == 1);
    assert(base * pow2(0) == base);
}

proof fn lemma_raw_delay_monotone(base: u64, k: nat)
    ensures
        base * pow2(k) <= base * pow2(k + 1),
        base * pow2(k + 1) == 2 * (base * pow2(k)),
{
    vstd::arithmetic::power2::lemma_pow2_adds(k, 1);
    vstd::arithmetic::power2::lemma2_to64();
    assert(pow2(k + 1) == pow2(k) * 2);
    assert(base * pow2(k + 1) == 2 * (base * pow2(k))) by (nonlinear_arith)
        requires
            pow2(k + 1) == pow2(k) * 2,
    ;
    assert(base * pow2(k) >= 0) by (nonlinear_arith);
}

/// Delays never shrink from one retry to the next.
pub proof fn law_delay_monotone(base: u64, max: u64, attempt: u32)
    requires
        attempt < u32::MAX,
    ensures
        delay_spec(base, max, attempt) <= delay_spec(base, max, (attempt + 1) as u32),
{
    if attempt > 0 && attempt - 1 < 31 {
        lemma_raw_delay_monotone(base, (attempt - 1) as nat);
    }
}

/// Below the ceiling, each retry waits twice as long as the one before it
/// (5 s, 10 s, 20 s, ... for the default policy).
pub proof fn law_delay_doubles(base: u64, max: u64, attempt: u32)
    requires
        1 <= attempt < 31,
        base * pow2(attempt as nat) < max,
    ensures
        delay_spec(base, max, (attempt + 1) as u32) == 2 * delay_spec(base, max, attempt),
{
    lemma_raw_delay_monotone(base, (attempt - 1) as nat);
    assert((attempt - 1) as nat + 1 == attempt as nat);
}

} // verus!
