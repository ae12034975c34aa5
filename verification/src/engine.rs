use vstd::prelude::*;

use crate::config::LoadTestConfig;
use crate::data::DataRow;
use crate::request::{build_request, config_headers_ok};
use crate::stats::{
    classify_status, spec_max, spec_min, spec_status_is_success, spec_sum, AggregateState,
    RequestOutcome, SummaryStats,
};

verus! {

/// What the network boundary reported for one worker: the response's status
/// code when a response arrived at all, and the elapsed time in
/// nanoseconds. `status` is `None` when no response was obtained.
#[derive(Clone, Copy, Debug, PartialEq, Eq, Structural)]
pub struct WireResult {
    pub status: Option<u16>,
    pub elapsed_ns: u64,
}

/// A wire result that counts as a success: a response arrived and its
/// status code is in the success range.
pub open spec fn wire_success(r: WireResult) -> bool {
    match r.status {
        Some(s) => spec_status_is_success(s),
        None => false,
    }
}

/// How many of the wire results count as successes.
pub open spec fn count_successes(rs: Seq<WireResult>) -> int
    decreases rs.len(),
{
    if rs.len() == 0 {
        0
    } else {
        count_successes(rs.drop_last()) + (if wire_success(rs.last()) {
            1int
        } else {
            0int
        })
    }
}

/// The elapsed durations of the wire results, in order.
pub open spec fn elapsed_of(rs: Seq<WireResult>) -> Seq<u64> {
    rs.map_values(|r: WireResult| r.elapsed_ns)
}

/// The row a worker is bound to: with rows present, worker `i` takes row
/// `i mod R`, cycling through the data source; with no rows, none.
pub fn row_for<'a>(rows: &'a Vec<DataRow>, index: usize) -> (r: Option<&'a DataRow>)
    ensures
        rows@.len() == 0 ==> r is None,
        rows@.len() > 0 ==> (r matches Some(rw) && *rw == rows@[(index as int) % (rows@.len()
            as int)]),
{
    if rows.len() == 0 {
        None
    } else {
        Some(&rows[index % rows.len()])
    }
}

/// Dispatch one whole test over an observed sequence of wire results, one
/// per worker, and compute the summary.
///
/// Worker `i` is bound to row `i mod R`, its request is built, its outcome
/// classified and recorded, and only after all `request_count` workers are
/// recorded is the summary taken: for every `N`, the summary counts `N`
/// requests in total, of which every one is either succeeded or failed.
/// When the headers cannot be built no request succeeds; otherwise exactly
/// the wire results in the success range are counted as succeeded. A run of
/// zero requests yields the all-zero summary with no division by zero.
pub fn run(config: &LoadTestConfig, rows: &Vec<DataRow>, wire: &Vec<WireResult>) -> (r:
    SummaryStats)
    requires
        wire@.len() == config.request_count,
    ensures
        r.total == config.request_count,
        r.succeeded + r.failed == config.request_count,
        config_headers_ok(*config) ==> r.succeeded == count_successes(wire@) && r.failed
            == config.request_count - count_successes(wire@),
        !config_headers_ok(*config) ==> r.succeeded == 0 && r.failed == config.request_count,
        config.request_count == 0 ==> r == (SummaryStats {
            total: 0,
            succeeded: 0,
            failed: 0,
            success_bp: 0,
            failure_bp: 0,
            avg_ns: 0,
            min_ns: 0,
            max_ns: 0,
        }),
        config.request_count > 0 ==> r.success_bp == (r.succeeded * 10000
            + config.request_count / 2) / (config.request_count as int),
        config.request_count > 0 ==> r.failure_bp == 10000 - r.success_bp,
        config.request_count > 0 ==> r.avg_ns == spec_sum(elapsed_of(wire@)) / (
        config.request_count as int),
        r.min_ns == spec_min(elapsed_of(wire@)),
        r.max_ns == spec_max(elapsed_of(wire@)),
{
    let n = config.request_count;
    let mut agg = AggregateState::new();
    let mut i: usize = 0;
    proof {
        assert(wire@.take(0) =~= Seq::<WireResult>::empty());
        assert(elapsed_of(wire@.take(0)) =~= Seq::<u64>::empty());
    }
    while i < n
        invariant
            i <= n,
            n == config.request_count,
            wire@.len() == n,
            agg.wf(),
            agg.sent == i,
            agg.received == i,
            agg.succeeded == if config_headers_ok(*config) {
                count_successes(wire@.take(i as int))
            } else {
                0int
            },
            agg.durations_ns@ == elapsed_of(wire@.take(i as int)),
        decreases n - i,
    {
        agg.record_sent();
        let row = row_for(rows, i);
        let built = build_request(config, row);
        let outcome = match built {
            Ok(_) => match wire[i].status {
                Some(s) => classify_status(s),
                None => RequestOutcome::FailureTransport,
            },
            Err(_) => RequestOutcome::FailureTransport,
        };
        agg.record_received(outcome, wire[i].elapsed_ns);
        proof {
            assert(wire@.take(i + 1).drop_last() =~= wire@.take(i as int));
            assert(wire@.take(i + 1).last() == wire@[i as int]);
            assert(elapsed_of(wire@.take(i + 1)) =~= elapsed_of(wire@.take(i as int)).push(
                wire@[i as int].elapsed_ns,
            ));
        }
        i = i + 1;
    }
    proof {
        assert(wire@.take(n as int) =~= wire@);
    }
    agg.finalize()
}

} // verus!
