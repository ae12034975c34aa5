use vstd::prelude::*;
use vstd::arithmetic::div_mod::{
    lemma_div_is_ordered, lemma_div_multiples_vanish, lemma_div_multiples_vanish_fancy,
    lemma_div_pos_is_pos,
};

verus! {

/// The sum of a sequence of durations.
pub open spec fn spec_sum(s: Seq<u64>) -> int
    decreases s.len(),
{
    if s.len() == 0 {
        0
    } else {
        spec_sum(s.drop_last()) + s.last()
    }
}

/// The least element of a sequence of durations; zero for an empty sequence.
pub open spec fn spec_min(s: Seq<u64>) -> u64
    decreases s.len(),
{
    if s.len() == 0 {
        0
    } else if s.len() == 1 {
        s[0]
    } else if s.last() < spec_min(s.drop_last()) {
        s.last()
    } else {
        spec_min(s.drop_last())
    }
}

/// The greatest element of a sequence of durations; zero for an empty
/// sequence.
pub open spec fn spec_max(s: Seq<u64>) -> u64
    decreases s.len(),
{
    if s.len() == 0 {
        0
    } else if s.last() > spec_max(s.drop_last()) {
        s.last()
    } else {
        spec_max(s.drop_last())
    }
}

/// A nonnegative quantity at most `n * b` divides by `n` to at most `b`.
proof fn lemma_div_bound(x: int, n: int, b: int)
    requires
        0 <= x,
        x <= n * b,
        0 < n,
        0 <= b,
    ensures
        0 <= x / n <= b,
{
    lemma_div_is_ordered(x, n * b, n);
    lemma_div_multiples_vanish(b, n);
    lemma_div_pos_is_pos(x, n);
}

/// The classified result of one request attempt.
///
/// `FailureStatus` means a response arrived but its status code was not a
/// success; `FailureTransport` means no response was obtained at all
/// (connection, DNS, TLS or timeout failure, or a request that could not be
/// built). Both count identically toward the failed total.
#[derive(Clone, Copy, Debug, PartialEq, Eq, Structural)]
pub enum RequestOutcome {
    Success,
    FailureStatus,
    FailureTransport,
}

impl RequestOutcome {
    /// True of the outcomes that count as failed.
    pub open spec fn is_failure(self) -> bool {
        self !== RequestOutcome::Success
    }
}

/// Whether a status code lies in the HTTP success range.
pub open spec fn spec_status_is_success(status: u16) -> bool {
    200 <= status < 300
}

/// Classify a received HTTP status code: any code in the 2xx range is a
/// success, every other code is a status failure.
pub fn classify_status(status: u16) -> (r: RequestOutcome)
    ensures
        r == (if spec_status_is_success(status) {
            RequestOutcome::Success
        } else {
            RequestOutcome::FailureStatus
        }),
{
    if 200 <= status && status < 300 {
        RequestOutcome::Success
    } else {
        RequestOutcome::FailureStatus
    }
}

/// Shared accumulator of the run: how many requests were sent and answered,
/// how many succeeded or failed, and every observed duration in nanoseconds.
pub struct AggregateState {
    pub sent: usize,
    pub received: usize,
    pub succeeded: usize,
    pub failed: usize,
    pub durations_ns: Vec<u64>,
}

impl AggregateState {
    /// The accumulator is consistent: every answered request was sent, was
    /// counted exactly once as succeeded or failed, and left one duration.
    pub open spec fn wf(self) -> bool {
        &&& self.received <= self.sent
        &&& self.succeeded + self.failed == self.received
        &&& self.durations_ns@.len() == self.received
    }

    /// A fresh accumulator with nothing recorded.
    pub fn new() -> (r: AggregateState)
        ensures
            r.wf(),
            r.sent == 0,
            r.received == 0,
            r.succeeded == 0,
            r.failed == 0,
            r.durations_ns@ == Seq::<u64>::empty(),
    {
        AggregateState {
            sent: 0,
            received: 0,
            succeeded: 0,
            failed: 0,
            durations_ns: Vec::new(),
        }
    }

    /// Record that one more request has been dispatched.
    pub fn record_sent(&mut self)
        requires
            old(self).wf(),
            old(self).sent < usize::MAX,
        ensures
            final(self).wf(),
            final(self).sent == old(self).sent + 1,
            final(self).received == old(self).received,
            final(self).succeeded == old(self).succeeded,
            final(self).failed == old(self).failed,
            final(self).durations_ns@ == old(self).durations_ns@,
    {
        self.sent = self.sent + 1;
    }

    /// Record the outcome and duration of one answered request. Requires that
    /// some sent request is still unanswered, so `received` never passes
    /// `sent`.
    pub fn record_received(&mut self, outcome: RequestOutcome, elapsed_ns: u64)
        requires
            old(self).wf(),
            old(self).received < old(self).sent,
        ensures
            final(self).wf(),
            final(self).sent == old(self).sent,
            final(self).received == old(self).received + 1,
            final(self).succeeded == old(self).succeeded + (if outcome is Success {
                1int
            } else {
                0int
            }),
            final(self).failed == old(self).failed + (if outcome.is_failure() {
                1int
            } else {
                0int
            }),
            final(self).durations_ns@ == old(self).durations_ns@.push(elapsed_ns),
    {
        self.received = self.received + 1;
        match outcome {
            RequestOutcome::Success => {
                self.succeeded = self.succeeded + 1;
            }
            _ => {
                self.failed = self.failed + 1;
            }
        }
        self.durations_ns.push(elapsed_ns);
    }

    /// Compute the summary once every sent request has been answered.
    ///
    /// Percentages are reported in hundredths of a percent, so an all-success
    /// run reports `10000`. The success share is rounded to the nearest
    /// hundredth and the failure share is its complement, so the two always
    /// sum to 100.00% on a non-empty run. For an empty run every derived
    /// quantity is zero; in particular no division by zero occurs.
    pub fn finalize(&self) -> (r: SummaryStats)
        requires
            self.wf(),
            self.received == self.sent,
        ensures
            r.total == self.sent,
            r.succeeded == self.succeeded,
            r.failed == self.failed,
            self.sent == 0 ==> r.success_bp == 0 && r.failure_bp == 0 && r.avg_ns == 0,
            self.sent > 0 ==> r.success_bp == (self.succeeded * 10000 + self.sent / 2) / (
            self.sent as int),
            self.sent > 0 ==> r.failure_bp == 10000 - r.success_bp,
            self.sent > 0 ==> r.avg_ns == spec_sum(self.durations_ns@) / (self.sent as int),
            r.min_ns == spec_min(self.durations_ns@),
            r.max_ns == spec_max(self.durations_ns@),
    {
        let n = self.sent;
        if n == 0 {
            return SummaryStats {
                total: 0,
                succeeded: 0,
                failed: 0,
                success_bp: 0,
                failure_bp: 0,
                avg_ns: 0,
                min_ns: 0,
                max_ns: 0,
            };
        }
        let d = &self.durations_ns;
        let mut total: u128 = d[0] as u128;
        let mut min_ns: u64 = d[0];
        let mut max_ns: u64 = d[0];
        let mut i: usize = 1;
        proof {
            let s1 = d@.take(1);
            assert(s1.drop_last() =~= Seq::<u64>::empty());
            assert(spec_sum(s1.drop_last()) == 0);
            assert(spec_max(s1.drop_last()) == 0);
            assert(s1.last() == d@[0]);
            assert(spec_sum(s1) == d@[0]);
            assert(spec_max(s1) == d@[0]);
        }
        while i < d.len()
            invariant
                1 <= i <= d@.len(),
                total == spec_sum(d@.take(i as int)),
                min_ns == spec_min(d@.take(i as int)),
                max_ns == spec_max(d@.take(i as int)),
                total <= i * (u64::MAX as int),
            decreases d@.len() - i,
        {
            proof {
                assert(d@.take(i + 1).drop_last() =~= d@.take(i as int));
                assert(d@.take(i + 1).last() == d@[i as int]);
                assert((i + 1) * (u64::MAX as int) == i * (u64::MAX as int) + u64::MAX)
                    by (nonlinear_arith);
            }
            total = total + d[i] as u128;
            if d[i] < min_ns {
                min_ns = d[i];
            }
            if d[i] > max_ns {
                max_ns = d[i];
            }
            i = i + 1;
        }
        proof {
            assert(d@.take(d@.len() as int) =~= d@);
            lemma_div_bound(total as int, n as int, u64::MAX as int);
            let half = (n / 2) as int;
            let x = self.succeeded * 10000 + half;
            assert(x <= (n as int) * 10000 + half);
            lemma_div_is_ordered(x, (n as int) * 10000 + half, n as int);
            lemma_div_multiples_vanish_fancy(10000, half, n as int);
            lemma_div_pos_is_pos(x, n as int);
        }
        let avg_ns: u64 = (total / n as u128) as u64;
        let success_bp: u64 = (((self.succeeded as u128) * 10000 + (n as u128) / 2) / (
        n as u128)) as u64;
        let failure_bp: u64 = 10000 - success_bp;
        SummaryStats {
            total: n,
            succeeded: self.succeeded,
            failed: self.failed,
            success_bp,
            failure_bp,
            avg_ns,
            min_ns,
            max_ns,
        }
    }
}

/// The immutable summary of a completed run.
///
/// `success_bp` and `failure_bp` are the success and failure percentages in
/// hundredths of a percent (basis points), so `10000` stands for 100.00%:
/// the success share rounded to the nearest hundredth, the failure share
/// its complement, so the two sum to 100.00% on every non-empty run.
/// Duration fields are in nanoseconds; all of them are zero for an empty run.
#[derive(Clone, Copy, Debug, PartialEq, Eq, Structural)]
pub struct SummaryStats {
    pub total: usize,
    pub succeeded: usize,
    pub failed: usize,
    pub success_bp: u64,
    pub failure_bp: u64,
    pub avg_ns: u64,
    pub min_ns: u64,
    pub max_ns: u64,
}

} // verus!
