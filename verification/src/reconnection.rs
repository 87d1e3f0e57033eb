//! How long to wait before each reconnection attempt, and when to give up.
use crate::random::random_below;
use vstd::prelude::*;

verus! {

/// How reconnections are paced. Delays are in milliseconds; a `max_attempts`
/// of 0 means no limit; a jitter of 0 means none, otherwise a random amount
/// below it is added to every delay.
#[derive(Clone, Copy, Debug, PartialEq, Eq, Structural)]
pub enum ReconnectionConfig {
    /// The same delay before every attempt.
    Constant { delay: u32, max_attempts: u32, jitter: u32 },
    /// `delay` times the attempt number, up to `max_delay`.
    Linear { max_delay: u32, max_attempts: u32, delay: u32, jitter: u32 },
    /// `min_delay` times `multiplicative_factor` to the power of the attempt
    /// number less one, up to `max_delay`.
    Exponential {
        min_delay: u32,
        max_delay: u32,
        max_attempts: u32,
        multiplicative_factor: u32,
        jitter: u32,
    },
}

/// The pacing of reconnections, and how many attempts the current outage has
/// made.
#[derive(Debug)]
pub struct ReconnectionState {
    pub config: ReconnectionConfig,
    pub attempts: u32,
}

/// An integer, clamped to what a `u64` holds.
pub open spec fn clamp_u64(x: int) -> u64 {
    if x > u64::MAX {
        u64::MAX
    } else if x < 0 {
        0
    } else {
        x as u64
    }
}

/// A delay with `j` added, saturating.
pub open spec fn jittered(delay: u64, j: int) -> u64 {
    clamp_u64(delay + j)
}

/// `b` to the power `e`.
pub open spec fn power(b: int, e: nat) -> int
    decreases e,
{
    if e == 0 {
        1
    } else {
        b * power(b, (e - 1) as nat)
    }
}

/// The attempt count after one more attempt, or `None` when the limit is
/// reached (a limit of 0 is none).
pub open spec fn spec_incr_with_max(curr: u32, max: u32) -> Option<u32> {
    if max != 0 && curr >= max {
        None
    } else if curr == u32::MAX {
        Some(u32::MAX)
    } else {
        Some((curr + 1) as u32)
    }
}

pub fn incr_with_max(curr: u32, max: u32) -> (r: Option<u32>)
    ensures
        r == spec_incr_with_max(curr, max),
{
    if max != 0 && curr >= max {
        None
    } else if curr == u32::MAX {
        Some(u32::MAX)
    } else {
        Some(curr + 1)
    }
}

/// The next attempt count, and the delay before it ahead of jitter; `None`
/// when the attempts are spent. The delay is clamped to `max_delay` before
/// any jitter is added, so that jitter still spreads clients once the
/// backoff saturates.
pub open spec fn planned_delay(config: ReconnectionConfig, attempts: u32) -> Option<(u32, u64)> {
    match config {
        ReconnectionConfig::Constant { delay, max_attempts, .. } => match spec_incr_with_max(attempts, max_attempts) {
            Some(next) => Some((next, delay as u64)),
            None => None,
        },
        ReconnectionConfig::Linear { max_delay, max_attempts, delay, .. } => match spec_incr_with_max(attempts, max_attempts) {
            Some(next) => {
                let grown = clamp_u64(delay * next);
                Some((next, if grown <= max_delay { grown } else { max_delay as u64 }))
            },
            None => None,
        },
        ReconnectionConfig::Exponential { min_delay, max_delay, max_attempts, multiplicative_factor, .. } => match spec_incr_with_max(attempts, max_attempts) {
            Some(next) => {
                let grown = clamp_u64(clamp_u64(power(multiplicative_factor as int, (next - 1) as nat)) * min_delay);
                Some((next, if grown <= max_delay { grown } else { max_delay as u64 }))
            },
            None => None,
        },
    }
}

/// The jitter a configuration adds.
pub open spec fn jitter_of(config: ReconnectionConfig) -> u32 {
    match config {
        ReconnectionConfig::Constant { jitter, .. } => jitter,
        ReconnectionConfig::Linear { jitter, .. } => jitter,
        ReconnectionConfig::Exponential { jitter, .. } => jitter,
    }
}

proof fn lemma_power_at_least_one(b: int, e: nat)
    requires
        b >= 1,
    ensures
        power(b, e) >= 1,
    decreases e,
{
    if e > 0 {
        lemma_power_at_least_one(b, (e - 1) as nat);
        assert(b * power(b, (e - 1) as nat) >= power(b, (e - 1) as nat)) by (nonlinear_arith)
            requires
                b >= 1,
                power(b, (e - 1) as nat) >= 1,
        ;
    }
}

proof fn lemma_power_grows(b: int, i: nat, j: nat)
    requires
        b >= 1,
        i <= j,
    ensures
        power(b, i) <= power(b, j),
    decreases j,
{
    if i < j {
        lemma_power_grows(b, i, (j - 1) as nat);
        lemma_power_at_least_one(b, (j - 1) as nat);
        assert(b * power(b, (j - 1) as nat) >= power(b, (j - 1) as nat)) by (nonlinear_arith)
            requires
                b >= 1,
                power(b, (j - 1) as nat) >= 1,
        ;
    }
}

proof fn lemma_power_of_small(b: int, e: nat)
    requires
        b == 0 || b == 1,
    ensures
        b == 1 ==> power(b, e) == 1,
        b == 0 && e > 0 ==> power(b, e) == 0,
    decreases e,
{
    if e > 0 {
        lemma_power_of_small(b, (e - 1) as nat);
    }
}

/// `base` to the power `exp`, saturating at the largest `u64`.
pub fn saturating_pow(base: u64, exp: u32) -> (r: u64)
    ensures
        r == clamp_u64(power(base as int, exp as nat)),
{
    if base <= 1 {
        proof {
            lemma_power_of_small(base as int, exp as nat);
        }
        return if base == 0 && exp > 0 { 0 } else { 1 };
    }
    let mut acc: u64 = 1;
    let mut i: u32 = 0;
    while i < exp
        invariant
            0 <= i <= exp,
            base >= 2,
            acc == power(base as int, i as nat),
        decreases exp - i,
    {
        assert(power(base as int, (i + 1) as nat) == base * power(base as int, i as nat));
        match acc.checked_mul(base) {
            Some(next) => {
                assert(next == base * acc) by (nonlinear_arith)
                    requires
                        next == acc * base,
                ;
                acc = next;
            },
            None => {
                proof {
                    assert(acc * base == base * acc) by (nonlinear_arith);
                    lemma_power_grows(base as int, (i + 1) as nat, exp as nat);
                }
                return u64::MAX;
            },
        }
        i = i + 1;
    }
    acc
}

/// `a` times `b`, saturating at the largest `u64`.
pub fn saturating_mul(a: u64, b: u64) -> (r: u64)
    ensures
        r == clamp_u64(a * b),
{
    match a.checked_mul(b) {
        Some(p) => p,
        None => u64::MAX,
    }
}

/// A delay with a drawn spread added, saturating.
pub fn jittered_delay(delay: u64, spread: u64) -> (r: u64)
    ensures
        r == jittered(delay, spread as int),
{
    match delay.checked_add(spread) {
        Some(total) => total,
        None => u64::MAX,
    }
}

/// A delay spread over `[delay, delay + jitter)`, saturating: a spread below
/// `jitter` is drawn and added.
pub fn add_jitter(delay: u64, jitter: u32) -> (r: u64)
    ensures
        jitter == 0 ==> r == delay,
        jitter > 0 ==> exists|j: int| 0 <= j < jitter && r == #[trigger] jittered(delay, j),
{
    if jitter == 0 {
        delay
    } else {
        let spread = random_below(jitter as u64);
        jittered_delay(delay, spread)
    }
}

impl ReconnectionState {
    pub fn new(config: ReconnectionConfig) -> (r: ReconnectionState)
        ensures
            r.config == config,
            r.attempts == 0,
    {
        ReconnectionState { config, attempts: 0 }
    }

    /// Starts counting attempts afresh, as a successful connection does.
    pub fn reset_attempts(&mut self)
        ensures
            final(self).config == old(self).config,
            final(self).attempts == 0,
    {
        self.attempts = 0;
    }

    /// The delay before the next attempt, counting it; `None` when the
    /// attempts are spent, which leaves the count as it was.
    pub fn next_delay(&mut self) -> (r: Option<u64>)
        ensures
            final(self).config == old(self).config,
            match planned_delay(old(self).config, old(self).attempts) {
                None => r is None && final(self).attempts == old(self).attempts,
                Some((next, delay)) => final(self).attempts == next && (r matches Some(d) && (if jitter_of(
                    old(self).config,
                ) == 0 {
                    d == delay
                } else {
                    exists|j: int| 0 <= j < jitter_of(old(self).config) && d == #[trigger] jittered(delay, j)
                })),
            },
    {
        match self.plan() {
            None => None,
            Some((next, delay)) => {
                let jitter = self.jitter();
                self.attempts = next;
                Some(add_jitter(delay, jitter))
            },
        }
    }

    /// Counts an attempt paced by a policy of the caller's own, which sets no
    /// limit here and adds no jitter: both are the policy's decision. The
    /// count saturates, and is what the policy is asked about.
    pub fn count_policy_attempt(&mut self) -> (r: u32)
        ensures
            r == (if old(self).attempts == u32::MAX { u32::MAX } else { (old(self).attempts + 1) as u32 }),
            final(self).attempts == r,
            final(self).config == old(self).config,
    {
        self.attempts = self.attempts.saturating_add(1);
        self.attempts
    }

    /// The jitter the configuration adds.
    pub fn jitter(&self) -> (r: u32)
        ensures
            r == jitter_of(self.config),
    {
        match self.config {
            ReconnectionConfig::Constant { jitter, .. } => jitter,
            ReconnectionConfig::Linear { jitter, .. } => jitter,
            ReconnectionConfig::Exponential { jitter, .. } => jitter,
        }
    }

    /// The next attempt count and its delay ahead of jitter, without counting
    /// the attempt.
    pub fn plan(&self) -> (r: Option<(u32, u64)>)
        ensures
            r == planned_delay(self.config, self.attempts),
    {
        match self.config {
            ReconnectionConfig::Constant { delay, max_attempts, .. } => {
                match incr_with_max(self.attempts, max_attempts) {
                    Some(next) => Some((next, delay as u64)),
                    None => None,
                }
            },
            ReconnectionConfig::Linear { max_delay, max_attempts, delay, .. } => {
                match incr_with_max(self.attempts, max_attempts) {
                    Some(next) => {
                        let grown = saturating_mul(delay as u64, next as u64);
                        Some((next, if grown <= max_delay as u64 { grown } else { max_delay as u64 }))
                    },
                    None => None,
                }
            },
            ReconnectionConfig::Exponential { min_delay, max_delay, max_attempts, multiplicative_factor, .. } => {
                match incr_with_max(self.attempts, max_attempts) {
                    Some(next) => {
                        let factor = saturating_pow(multiplicative_factor as u64, next - 1);
                        let grown = saturating_mul(factor, min_delay as u64);
                        Some((next, if grown <= max_delay as u64 { grown } else { max_delay as u64 }))
                    },
                    None => None,
                }
            },
        }
    }
}

/// Whatever the pacing, a delay before jitter never exceeds the configured
/// ceiling, so the longest wait is that ceiling plus the jitter.
pub proof fn lemma_delay_stays_under_the_ceiling(config: ReconnectionConfig, attempts: u32)
    ensures
        planned_delay(config, attempts) matches Some(p) ==> match config {
            ReconnectionConfig::Constant { delay, .. } => p.1 == delay,
            ReconnectionConfig::Linear { max_delay, .. } => p.1 <= max_delay,
            ReconnectionConfig::Exponential { max_delay, .. } => p.1 <= max_delay,
        },
{
}

/// With a limit, no more than `max_attempts` delays are handed out in a row:
/// once the count reaches the limit every request is refused.
pub proof fn lemma_attempts_are_capped(config: ReconnectionConfig, attempts: u32)
    ensures
        planned_delay(config, attempts) matches Some(p) ==> p.0 >= 1 && match config {
            ReconnectionConfig::Constant { max_attempts, .. } => max_attempts != 0 ==> p.0 <= max_attempts,
            ReconnectionConfig::Linear { max_attempts, .. } => max_attempts != 0 ==> p.0 <= max_attempts,
            ReconnectionConfig::Exponential { max_attempts, .. } => max_attempts != 0 ==> p.0 <= max_attempts,
        },
{
}

/// A delay a policy of the caller's answered, in whole milliseconds, as the
/// milliseconds the client waits: beyond what a `u64` holds, the longest wait.
pub fn policy_delay_millis(millis: u128) -> (r: u64)
    ensures
        r == (if millis > u64::MAX { u64::MAX } else { millis as u64 }),
{
    if millis > u64::MAX as u128 {
        u64::MAX
    } else {
        millis as u64
    }
}

} // verus!
