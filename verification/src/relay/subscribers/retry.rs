//! How long to wait between attempts: twice as long each time, up to a limit, and
//! up to a fifth more or less at random.
use rand::Rng;
use vstd::prelude::*;

use crate::relay::config::RetryConfig;

verus! {

/// The delay no longer doubles behind this attempt.
pub const MAX_DOUBLINGS: u32 = 20;

/// The least factor, in millionths.
pub const LEAST_JITTER: u64 = 800_000;

/// The greatest factor, in millionths.
pub const GREATEST_JITTER: u64 = 1_200_000;

/// A factor of one, in millionths.
pub const WHOLE: u64 = 1_000_000;

/// `rand::Rng::random_range` on the thread's generator: some number between the
/// two, both included. Which one is up to chance.
#[verifier::external_body]
fn random_between(low: u64, high: u64) -> (r: u64)
    requires
        low <= high,
    ensures
        low <= r <= high,
{
    rand::rng().random_range(low..=high)
}

/// A number, doubled `n` times.
pub open spec fn doubled(base: nat, n: nat) -> nat
    decreases n,
{
    if n == 0 {
        base
    } else {
        2 * doubled(base, (n - 1) as nat)
    }
}

pub open spec fn at_most(a: int, b: int) -> int {
    if a <= b {
        a
    } else {
        b
    }
}

/// The delay behind an attempt, before chance comes in.
pub open spec fn steady_delay(base: u64, max: u64, attempt: u32) -> int {
    at_most(
        doubled(base as nat, at_most(attempt as int, MAX_DOUBLINGS as int) as nat) as int,
        max as int,
    )
}

/// A delay, changed by a factor in millionths.
pub open spec fn jittered(delay: int, factor: int) -> int {
    at_most(delay * factor / (WHOLE as int), u64::MAX as int)
}

/// Whether retries have no delay at all.
pub open spec fn is_off(base: u64, max: u64) -> bool {
    base == 0 || max == 0
}

/// When to try again.
#[derive(Debug, Clone, Copy, PartialEq, Eq)]
pub struct RetrySchedule {
    /// The first delay, in milliseconds.
    pub base_delay_ms: u64,
    /// The longest delay, in milliseconds.
    pub max_delay_ms: u64,
}

impl RetrySchedule {
    /// The schedule that a configuration describes.
    pub fn from_config(c: &RetryConfig) -> (r: RetrySchedule)
        ensures
            r.base_delay_ms == c.base_delay_ms,
            r.max_delay_ms == c.max_delay_ms,
    {
        RetrySchedule { base_delay_ms: c.base_delay_ms, max_delay_ms: c.max_delay_ms }
    }

    /// The delay behind an attempt, before chance comes in, in milliseconds.
    pub fn capped_delay(&self, attempt: u32) -> (r: u64)
        ensures
            r == steady_delay(self.base_delay_ms, self.max_delay_ms, attempt),
    {
        let times = if attempt < MAX_DOUBLINGS {
            attempt
        } else {
            MAX_DOUBLINGS
        };
        let mut delay: u64 = self.base_delay_ms;
        let mut n: u32 = 0;
        while n < times
            invariant
                n <= times,
                delay == at_most(doubled(self.base_delay_ms as nat, n as nat) as int, u64::MAX as int),
            decreases times - n,
        {
            if delay > u64::MAX / 2 {
                delay = u64::MAX;
            } else {
                delay = delay * 2;
            }
            n = n + 1;
        }
        if delay < self.max_delay_ms {
            delay
        } else {
            self.max_delay_ms
        }
    }

    /// The delay behind an attempt, for a given factor in millionths.
    pub fn delay_with(&self, attempt: u32, factor: u64) -> (r: u64)
        ensures
            r == if is_off(self.base_delay_ms, self.max_delay_ms) {
                0
            } else {
                jittered(
                    steady_delay(self.base_delay_ms, self.max_delay_ms, attempt),
                    factor as int,
                )
            },
    {
        if self.base_delay_ms == 0 || self.max_delay_ms == 0 {
            return 0;
        }
        let delay: u128 = self.capped_delay(attempt) as u128;
        assert(delay * factor <= 0xffff_ffff_ffff_ffff * 0xffff_ffff_ffff_ffff) by (nonlinear_arith)
            requires
                delay <= 0xffff_ffff_ffff_ffff,
                factor <= 0xffff_ffff_ffff_ffff,
        ;
        let scaled: u128 = delay * (factor as u128) / (WHOLE as u128);
        if scaled > u64::MAX as u128 {
            u64::MAX
        } else {
            scaled as u64
        }
    }

    /// The delay behind an attempt, in milliseconds; none where the base or the
    /// limit is zero.
    pub fn next_delay(&self, attempt: u32) -> (r: u64)
        ensures
            is_off(self.base_delay_ms, self.max_delay_ms) ==> r == 0,
            !is_off(self.base_delay_ms, self.max_delay_ms) ==> exists|factor: int|
                LEAST_JITTER <= factor <= GREATEST_JITTER && r == #[trigger] jittered(
                    steady_delay(self.base_delay_ms, self.max_delay_ms, attempt),
                    factor,
                ),
    {
        let factor: u64 = random_between(LEAST_JITTER, GREATEST_JITTER);
        let r: u64 = self.delay_with(attempt, factor);
        assert(is_off(self.base_delay_ms, self.max_delay_ms) || r == jittered(
            steady_delay(self.base_delay_ms, self.max_delay_ms, attempt),
            factor as int,
        ));
        r
    }
}

proof fn lemma_doubled_grows(base: nat, m: nat, n: nat)
    requires
        m <= n,
    ensures
        doubled(base, m) <= doubled(base, n),
    decreases n - m,
{
    if m < n {
        lemma_doubled_grows(base, m, (n - 1) as nat);
    }
}

/// Before chance comes in, delays never shrink and never exceed the limit.
pub proof fn law_delays_grow_up_to_the_limit(base: u64, max: u64, m: u32, n: u32)
    requires
        m <= n,
    ensures
        steady_delay(base, max, m) <= steady_delay(base, max, n) <= max,
        0 <= steady_delay(base, max, m),
{
    lemma_doubled_grows(
        base as nat,
        at_most(m as int, MAX_DOUBLINGS as int) as nat,
        at_most(n as int, MAX_DOUBLINGS as int) as nat,
    );
}

/// Chance changes a delay by a fifth at most.
pub proof fn law_jitter_is_a_fifth_at_most(delay: u64, factor: int)
    requires
        LEAST_JITTER <= factor <= GREATEST_JITTER,
    ensures
        delay * 4 / 5 <= jittered(delay as int, factor) <= delay * 6 / 5,
{
    let d = delay as int;
    let p = d * factor;
    assert(800_000 * d <= p && p <= 1_200_000 * d) by (nonlinear_arith)
        requires
            p == d * factor,
            0 <= d,
            800_000 <= factor <= 1_200_000,
    ;
}

/// The delay starts at the base, doubles with each attempt up to the twentieth, and never
/// passes the limit.
pub proof fn law_delay_doubles(base: u64, max: u64, attempt: u32)
    ensures
        steady_delay(base, max, 0) == if base <= max {
            base
        } else {
            max
        },
        attempt < 20 ==> steady_delay(base, max, (attempt + 1) as u32) == if 2 * steady_delay(
            base,
            max,
            attempt,
        ) <= max {
            2 * steady_delay(base, max, attempt)
        } else {
            max as int
        },
        attempt >= 20 ==> steady_delay(base, max, attempt) == steady_delay(base, max, 20),
{
}

/// A millionth of the delay for each unit of the factor, in whole milliseconds.
pub proof fn law_jitter_is_in_proportion(delay: u64, factor: int)
    requires
        800_000 <= factor <= 1_200_000,
    ensures
        ({
            let j = jittered(delay as int, factor);
            j < u64::MAX ==> j * 1_000_000 <= delay * factor < (j + 1) * 1_000_000
        }),
        jittered(delay as int, 1_000_000) == delay,
{
}

/// There is no delay where either bound on it is zero.
pub proof fn law_zero_bound_means_no_delay(base: u64, max: u64)
    ensures
        is_off(base, max) <==> base == 0 || max == 0,
        is_off(base, max) ==> steady_delay(base, max, 0) == 0,
{
}

/// The least factor takes a fifth off the delay, and the greatest adds a fifth to it.
pub proof fn law_jitter_reaches_a_fifth(delay: u64)
    ensures
        jittered(delay as int, LEAST_JITTER as int) == delay * 4 / 5,
        delay * 6 / 5 <= u64::MAX ==> jittered(delay as int, GREATEST_JITTER as int) == delay * 6
            / 5,
{
}

} // verus!
