use vstd::prelude::*;

use std::time::Duration;
use std::time::SystemTime;

verus! {

#[verifier::external_type_specification]
#[verifier::external_body]
pub struct ExSystemTime(SystemTime);

/// The current time, from `SystemTime::now`. Nothing is stated of it: it is
/// the machine's clock.
#[verifier::external_body]
fn now() -> SystemTime {
    SystemTime::now()
}

/// `SystemTime::duration_since`: how long after `start` the time `now` is, or
/// `None` where `now` is earlier. The clock decides; nothing is stated.
#[verifier::external_body]
fn elapsed_since(now: &SystemTime, start: &SystemTime) -> Option<Duration> {
    now.duration_since(*start).ok()
}

/// `<Duration as PartialOrd>::ge`. Durations have no model here, so nothing
/// is stated of the answer.
#[verifier::external_body]
fn duration_at_least(elapsed: &Duration, period: &Duration) -> bool {
    *elapsed >= *period
}

/// Sum of the first `n` entries of `s`.
pub open spec fn sum_prefix(s: Seq<u64>, n: int) -> int
    decreases n,
{
    if n <= 0 {
        0
    } else {
        sum_prefix(s, n - 1) + s[n - 1]
    }
}

proof fn lemma_sum_prefix_monotone(s: Seq<u64>, a: int, b: int)
    requires
        0 <= a <= b <= s.len(),
    ensures
        sum_prefix(s, a) <= sum_prefix(s, b),
    decreases b - a,
{
    if a < b {
        lemma_sum_prefix_monotone(s, a, b - 1);
    }
}

/// How many tokens were used in each of the last sixteen periods.
pub struct BandwidthMonitor {
    used_tokens_history: [u64; 16],
    used_tokens_index: usize,
    current_usage: u64,
    current_start: SystemTime,
    period_time: Duration,
}

impl BandwidthMonitor {
    /// Tokens used in each of the sixteen remembered periods.
    pub closed spec fn history(&self) -> Seq<u64> {
        self.used_tokens_history@
    }

    /// The slot that the period now running will fill.
    pub closed spec fn slot(&self) -> int {
        self.used_tokens_index as int
    }

    /// Tokens used so far in the period now running.
    pub closed spec fn current(&self) -> u64 {
        self.current_usage
    }

    /// When the period now running started.
    pub closed spec fn start(&self) -> SystemTime {
        self.current_start
    }

    /// How long a period lasts.
    pub closed spec fn period(&self) -> Duration {
        self.period_time
    }

    pub closed spec fn wf(&self) -> bool {
        self.used_tokens_index < 16
    }

    pub fn new(period_time: Duration) -> (res: Self)
        ensures
            res.wf(),
            res.history() == Seq::new(16, |_i: int| 0u64),
            res.slot() == 0,
            res.current() == 0,
            res.period() == period_time,
    {
        let res = BandwidthMonitor {
            used_tokens_history: [0; 16],
            used_tokens_index: 0,
            current_usage: 0,
            current_start: now(),
            period_time,
        };
        assert(res.history() =~= Seq::new(16, |_i: int| 0u64));
        res
    }

    /// The mean of the remembered periods, rounded down.
    pub fn average(&self) -> (res: u64)
        requires
            sum_prefix(self.history(), 16) <= u64::MAX,
        ensures
            res == sum_prefix(self.history(), 16) / 16,
    {
        let mut sum: u64 = 0;
        let mut i: usize = 0;
        while i < 16
            invariant
                i <= 16,
                self.used_tokens_history@.len() == 16,
                sum == sum_prefix(self.history(), i as int),
                sum_prefix(self.history(), 16) <= u64::MAX,
            decreases 16 - i,
        {
            proof {
                lemma_sum_prefix_monotone(self.history(), i as int + 1, 16);
            }
            sum = sum + self.used_tokens_history[i];
            i = i + 1;
        }
        let res = sum >> 4u64;
        assert(res == sum / 16) by (bit_vector)
            requires
                res == sum >> 4u64,
        ;
        res
    }

    /// Adds `used_tokens` to the period now running. Where the clock shows
    /// that the period is over, its total goes into the history and a new
    /// period starts now. A clock that went back counts as a period not over.
    pub fn update(&mut self, used_tokens: u64)
        requires
            old(self).wf(),
            old(self).current() + used_tokens <= u64::MAX,
        ensures
            final(self).wf(),
            final(self).update_outcome(*old(self), used_tokens, false, old(self).start()) || exists|t: SystemTime|
                #[trigger] final(self).update_outcome(*old(self), used_tokens, true, t),
    {
        let now = now();
        let period_over = match elapsed_since(&now, &self.current_start) {
            Some(elapsed) => duration_at_least(&elapsed, &self.period_time),
            None => false,
        };
        let ghost before = *self;
        self.update_at(used_tokens, now, period_over);
        if period_over {
            assert(self.update_outcome(before, used_tokens, true, now));
        }
    }

    /// `self` is what `update` makes of `before` with `used_tokens`, where
    /// `period_over` tells whether the running period had ended and `now` is
    /// the time read, at which an ended period's successor starts.
    pub open spec fn update_outcome(&self, before: Self, used_tokens: u64, period_over: bool, now: SystemTime) -> bool {
        let total = before.current() + used_tokens;
        &&& self.period() == before.period()
        &&& self.start() == (if period_over {
            now
        } else {
            before.start()
        })
        &&& if period_over {
            &&& self.history() == before.history().update(before.slot(), total as u64)
            &&& self.current() == 0
            &&& self.slot() == (if before.slot() + 1 >= 16 {
                0
            } else {
                before.slot() + 1
            })
        } else {
            &&& self.history() == before.history()
            &&& self.current() == total
            &&& self.slot() == before.slot()
        }
    }

    /// The step of `update` once the clock has been read: `now` is the time
    /// read and `period_over` whether the running period has ended.
    pub fn update_at(&mut self, used_tokens: u64, now: SystemTime, period_over: bool)
        requires
            old(self).wf(),
            old(self).current() + used_tokens <= u64::MAX,
        ensures
            final(self).wf(),
            final(self).update_outcome(*old(self), used_tokens, period_over, now),
    {
        self.current_usage = self.current_usage + used_tokens;
        if period_over {
            let idx = self.used_tokens_index;
            self.used_tokens_history[idx] = self.current_usage;
            self.current_usage = 0;
            self.current_start = now;
            self.used_tokens_index = self.used_tokens_index + 1;
            if self.used_tokens_index >= 16 {
                self.used_tokens_index = 0;
            }
        }
    }
}

} // verus!
