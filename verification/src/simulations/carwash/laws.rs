//! What holds of every run.

use vstd::prelude::*;
use super::engine::{
    arrival_instant, arrivals_before, config_rejection, count_left, count_pending, count_satisfied,
    first_at_or_after, hour_record, record_at, records_between, run_end, servers_at, simulate,
};
use super::models::{ArrivalDraw, CarView, HourView, SimConfig, TICKS_PER_HOUR};
use super::prepare::{lemma_first_rejected_is_first, stage_rejection};
use super::pipeline::{
    abandons, candidate_start, customer_record, expected_wait, hour_end_of, servers_after,
};

verus! {

/// There is one server for each stage at every point of a run.
pub proof fn lemma_servers_len(n: nat, arrivals: Seq<ArrivalDraw>, tolerance: i64, k: int)
    ensures
        servers_at(n, arrivals, tolerance, k).len() == n,
    decreases k,
{
    if k > 0 {
        lemma_servers_len(n, arrivals, tolerance, k - 1);
    }
}

/// Dealing with a customer never makes a server free earlier than it was.
pub proof fn lemma_step_never_earlier(
    busy: Seq<u64>,
    draw: ArrivalDraw,
    arrival: u64,
    tolerance: i64,
    i: int,
)
    requires
        0 <= i < busy.len(),
    ensures
        busy[i] <= servers_after(busy, draw, arrival, tolerance)[i],
{
}

/// Over a run, the instant at which a stage's server is free never moves
/// back: what it is when customer `j` arrives, it is at least when any later
/// customer `k` arrives.
pub proof fn lemma_servers_never_earlier(
    n: nat,
    arrivals: Seq<ArrivalDraw>,
    tolerance: i64,
    j: int,
    k: int,
    i: int,
)
    requires
        0 <= j <= k,
        0 <= i < n,
    ensures
        servers_at(n, arrivals, tolerance, j)[i] <= servers_at(n, arrivals, tolerance, k)[i],
    decreases k - j,
{
    if j < k {
        lemma_servers_never_earlier(n, arrivals, tolerance, j, k - 1, i);
        lemma_servers_len(n, arrivals, tolerance, k - 1);
        lemma_step_never_earlier(
            servers_at(n, arrivals, tolerance, k - 1),
            arrivals[k - 1],
            arrival_instant(arrivals, k - 1),
            tolerance,
            i,
        );
    }
}

/// Every customer has exactly one outcome: left, still in service when the
/// hour of arrival ended, or served within it.
pub proof fn lemma_one_outcome(
    busy: Seq<u64>,
    draw: ArrivalDraw,
    car_id: u64,
    arrival: u64,
    tolerance: i64,
)
    ensures
        ({
            let record = customer_record(busy, draw, car_id, arrival, tolerance);
            &&& record.left || record.pending || record.satisfied
            &&& !(record.left && record.pending)
            &&& !(record.left && record.satisfied)
            &&& !(record.pending && record.satisfied)
        }),
{
}

/// A customer who left was served at no stage and took no time.
pub proof fn lemma_left_means_unserved(
    busy: Seq<u64>,
    draw: ArrivalDraw,
    car_id: u64,
    arrival: u64,
    tolerance: i64,
)
    ensures
        ({
            let record = customer_record(busy, draw, car_id, arrival, tolerance);
            record.left ==> {
                &&& record.stage_durations.len() == 0
                &&& record.stage_start_times.len() == 0
                &&& record.stage_end_times.len() == 0
                &&& record.total_duration == 0
                &&& servers_after(busy, draw, arrival, tolerance) == busy
            }
        }),
{
}

/// A customer who could enter the first stage only at the instant at which
/// the hour of arrival ends, or later, leaves: the end of an hour is not
/// part of it.
pub proof fn lemma_boundary_exclusive(
    busy: Seq<u64>,
    draw: ArrivalDraw,
    car_id: u64,
    arrival: u64,
    tolerance: i64,
)
    requires
        candidate_start(busy, arrival) >= hour_end_of(arrival),
    ensures
        ({
            let record = customer_record(busy, draw, car_id, arrival, tolerance);
            record.left && !record.pending && !record.satisfied
        }),
{
}

/// Customers arrive in the order in which they are numbered.
pub proof fn lemma_arrivals_in_order(arrivals: Seq<ArrivalDraw>, a: int, b: int)
    requires
        a <= b,
    ensures
        arrival_instant(arrivals, a) <= arrival_instant(arrivals, b),
    decreases b - a,
{
    if a < b {
        lemma_arrivals_in_order(arrivals, a, b - 1);
    }
}

/// No two customers share a server: at every stage, a later customer's
/// service starts when the earlier customer's has ended, or after.
pub proof fn lemma_one_customer_per_server(
    n: nat,
    arrivals: Seq<ArrivalDraw>,
    tolerance: i64,
    a: int,
    b: int,
    i: int,
)
    requires
        0 <= a < b,
        0 <= i < n,
        !record_at(n, arrivals, tolerance, a).left,
        !record_at(n, arrivals, tolerance, b).left,
    ensures
        record_at(n, arrivals, tolerance, a).stage_start_times[i] <= record_at(
            n,
            arrivals,
            tolerance,
            a,
        ).stage_end_times[i],
        record_at(n, arrivals, tolerance, a).stage_end_times[i] <= record_at(
            n,
            arrivals,
            tolerance,
            b,
        ).stage_start_times[i],
{
    lemma_servers_len(n, arrivals, tolerance, a);
    lemma_servers_len(n, arrivals, tolerance, b);
    lemma_servers_never_earlier(n, arrivals, tolerance, a + 1, b, i);
}

/// The instant at which a served customer reaches stage `i`: the arrival
/// for the first stage, the end of service at the stage before for the
/// others.
pub open spec fn reaches_stage(record: CarView, i: int) -> u64 {
    if i <= 0 {
        record.arrival_time_abs
    } else {
        record.stage_end_times[i - 1]
    }
}

/// First come, first served: of two served customers, the one who reaches a
/// stage earlier is not served there later than the other.
pub proof fn lemma_first_come_first_served(
    n: nat,
    arrivals: Seq<ArrivalDraw>,
    tolerance: i64,
    a: int,
    b: int,
    i: int,
)
    requires
        0 <= a,
        0 <= b,
        0 <= i < n,
        !record_at(n, arrivals, tolerance, a).left,
        !record_at(n, arrivals, tolerance, b).left,
        reaches_stage(record_at(n, arrivals, tolerance, a), i) < reaches_stage(
            record_at(n, arrivals, tolerance, b),
            i,
        ),
    ensures
        record_at(n, arrivals, tolerance, a).stage_start_times[i] <= record_at(
            n,
            arrivals,
            tolerance,
            b,
        ).stage_start_times[i],
{
    lemma_servers_len(n, arrivals, tolerance, a);
    lemma_servers_len(n, arrivals, tolerance, b);
    if a < b {
        lemma_one_customer_per_server(n, arrivals, tolerance, a, b, i);
    } else if b < a {
        if i == 0 {
            lemma_arrivals_in_order(arrivals, b, a);
        } else {
            lemma_one_customer_per_server(n, arrivals, tolerance, b, a, i - 1);
        }
    }
}

/// The first arrival at `bound` or later, looked for from `k` on, is not
/// before `k` nor past the last arrival; if it is an arrival, it is at
/// `bound` or later.
pub proof fn lemma_first_at_or_after_bounds(arrivals: Seq<ArrivalDraw>, bound: int, k: int)
    requires
        0 <= k <= arrivals.len(),
    ensures
        k <= first_at_or_after(arrivals, bound, k) <= arrivals.len(),
        first_at_or_after(arrivals, bound, k) < arrivals.len() ==> arrival_instant(
            arrivals,
            first_at_or_after(arrivals, bound, k),
        ) >= bound,
    decreases arrivals.len() - k,
{
    if k < arrivals.len() && arrival_instant(arrivals, k) < bound {
        lemma_first_at_or_after_bounds(arrivals, bound, k + 1);
    }
}

/// Every customer from `j` on who comes before the first arrival at `bound`
/// or later arrives before `bound`.
pub proof fn lemma_earlier_than_bound(arrivals: Seq<ArrivalDraw>, bound: int, j: int, k: int)
    requires
        0 <= j <= k < first_at_or_after(arrivals, bound, j),
    ensures
        arrival_instant(arrivals, k) < bound,
    decreases k - j,
{
    if j < k {
        lemma_earlier_than_bound(arrivals, bound, j + 1, k);
    }
}

/// A later bound has no fewer arrivals before it.
pub proof fn lemma_arrivals_before_grows(arrivals: Seq<ArrivalDraw>, lower: int, upper: int, k: int)
    requires
        lower <= upper,
        0 <= k <= arrivals.len(),
    ensures
        first_at_or_after(arrivals, lower, k) <= first_at_or_after(arrivals, upper, k),
    decreases arrivals.len() - k,
{
    if k < arrivals.len() && arrival_instant(arrivals, k) < lower {
        lemma_arrivals_before_grows(arrivals, lower, upper, k + 1);
    } else {
        lemma_first_at_or_after_bounds(arrivals, upper, k);
    }
}

/// Among the customers from `from` up to `to`, those who left, those still
/// in service at the end of their hour and those served within it are all
/// of them.
pub proof fn lemma_outcomes_cover(
    n: nat,
    arrivals: Seq<ArrivalDraw>,
    tolerance: i64,
    from: int,
    to: int,
)
    requires
        from <= to,
    ensures
        ({
            let cars = records_between(n, arrivals, tolerance, from, to);
            count_satisfied(cars) + count_pending(cars) + count_left(cars) == to - from
        }),
    decreases to - from,
{
    if from < to {
        lemma_outcomes_cover(n, arrivals, tolerance, from, to - 1);
        let cars = records_between(n, arrivals, tolerance, from, to);
        assert(cars.drop_last() == records_between(n, arrivals, tolerance, from, to - 1));
    }
}

/// The customers that the hour records count, over all of them: those
/// served, those still in service and those who left.
pub open spec fn customers_counted(hours: Seq<HourView>) -> int
    decreases hours.len(),
{
    if hours.len() == 0 {
        0
    } else {
        customers_counted(hours.drop_last()) + hours.last().served_count
            + hours.last().pending_count + hours.last().left_count
    }
}

/// The records of the first `h` hours count every customer who arrives
/// before these hours end, once.
pub proof fn lemma_hours_count_arrivals(n: nat, arrivals: Seq<ArrivalDraw>, tolerance: i64, h: int)
    requires
        0 <= h,
        arrivals.len() <= u64::MAX,
    ensures
        customers_counted(Seq::new(h as nat, |i: int| hour_record(n, arrivals, tolerance, i)))
            == arrivals_before(arrivals, h * TICKS_PER_HOUR),
        0 <= arrivals_before(arrivals, h * TICKS_PER_HOUR) <= arrivals.len(),
    decreases h,
{
    lemma_first_at_or_after_bounds(arrivals, h * TICKS_PER_HOUR, 0);
    if h > 0 {
        lemma_hours_count_arrivals(n, arrivals, tolerance, h - 1);
        let hours = Seq::new(h as nat, |i: int| hour_record(n, arrivals, tolerance, i));
        assert(hours.drop_last() == Seq::new(
            (h - 1) as nat,
            |i: int| hour_record(n, arrivals, tolerance, i),
        ));
        let lo = arrivals_before(arrivals, (h - 1) * TICKS_PER_HOUR);
        let hi = arrivals_before(arrivals, h * TICKS_PER_HOUR);
        lemma_arrivals_before_grows(arrivals, (h - 1) * TICKS_PER_HOUR, h * TICKS_PER_HOUR, 0);
        lemma_outcomes_cover(n, arrivals, tolerance, lo, hi);
    }
}

/// Customers are conserved: the customers that a run's hour records count
/// as served, still in service or gone are as many as the run reports in
/// all.
pub proof fn lemma_customers_conserved(hours: int, n: nat, tolerance: i64, arrivals: Seq<ArrivalDraw>)
    requires
        0 <= hours,
        arrivals.len() <= u64::MAX,
    ensures
        customers_counted(simulate(hours, n, tolerance, arrivals).hours) == simulate(
            hours,
            n,
            tolerance,
            arrivals,
        ).total_cars,
{
    lemma_hours_count_arrivals(n, arrivals, tolerance, hours);
}

/// Each customer stands under the hour of arrival: the customers in the
/// record of hour `h`, counted from 0, arrive from the start of that hour
/// up to, not including, its end, and carry the hour's number.
pub proof fn lemma_recorded_under_arrival_hour(
    n: nat,
    arrivals: Seq<ArrivalDraw>,
    tolerance: i64,
    h: int,
    j: int,
)
    requires
        0 <= h < i32::MAX,
        0 <= j < hour_record(n, arrivals, tolerance, h).cars.len(),
    ensures
        ({
            let record = hour_record(n, arrivals, tolerance, h).cars[j];
            &&& h * TICKS_PER_HOUR <= record.arrival_time_abs < (h + 1) * TICKS_PER_HOUR
            &&& record.hour_arrived == h + 1
            &&& record.hour_arrived == hour_record(n, arrivals, tolerance, h).hour_index
            &&& record.arrival_minute == record.arrival_time_abs - h * TICKS_PER_HOUR
        }),
{
    let lo = arrivals_before(arrivals, h * TICKS_PER_HOUR);
    let k = lo + j;
    lemma_first_at_or_after_bounds(arrivals, h * TICKS_PER_HOUR, 0);
    lemma_first_at_or_after_bounds(arrivals, (h + 1) * TICKS_PER_HOUR, 0);
    lemma_arrivals_before_grows(arrivals, h * TICKS_PER_HOUR, (h + 1) * TICKS_PER_HOUR, 0);
    lemma_earlier_than_bound(arrivals, (h + 1) * TICKS_PER_HOUR, 0, k);
    lemma_arrivals_in_order(arrivals, lo, k);
}

/// Whether two runs of arrivals are the same in their first `m` arrivals.
pub open spec fn same_start(a: Seq<ArrivalDraw>, b: Seq<ArrivalDraw>, m: int) -> bool {
    &&& 0 <= m <= a.len()
    &&& m <= b.len()
    &&& forall|i: int| 0 <= i < m ==> a[i] == b[i]
}

/// Arrivals that are the same up to a customer give that customer the same
/// instant of arrival.
pub proof fn lemma_same_instants(a: Seq<ArrivalDraw>, b: Seq<ArrivalDraw>, m: int, k: int)
    requires
        same_start(a, b, m),
        k < m,
    ensures
        arrival_instant(a, k) == arrival_instant(b, k),
    decreases k + 1,
{
    if k >= 0 {
        lemma_same_instants(a, b, m, k - 1);
    }
}

/// Arrivals that are the same before a customer leave the servers the same
/// for that customer.
pub proof fn lemma_same_servers(
    n: nat,
    tolerance: i64,
    a: Seq<ArrivalDraw>,
    b: Seq<ArrivalDraw>,
    m: int,
    k: int,
)
    requires
        same_start(a, b, m),
        k <= m,
    ensures
        servers_at(n, a, tolerance, k) == servers_at(n, b, tolerance, k),
    decreases k,
{
    if k > 0 {
        lemma_same_servers(n, tolerance, a, b, m, k - 1);
        lemma_same_instants(a, b, m, k - 1);
    }
}

/// Arrivals that are the same up to one that is at `bound` or later have
/// the same first arrival at `bound` or later.
pub proof fn lemma_same_first_at_or_after(
    a: Seq<ArrivalDraw>,
    b: Seq<ArrivalDraw>,
    m: int,
    bound: int,
    j: int,
)
    requires
        same_start(a, b, m),
        0 <= j < m,
        arrival_instant(a, m - 1) >= bound,
    ensures
        first_at_or_after(a, bound, j) == first_at_or_after(b, bound, j),
        j <= first_at_or_after(a, bound, j) < m,
    decreases m - j,
{
    lemma_same_instants(a, b, m, j);
    if arrival_instant(a, j) < bound {
        lemma_same_first_at_or_after(a, b, m, bound, j + 1);
    }
}

/// What arrives at the end of the last hour or later changes nothing: two
/// runs of arrivals that are the same up to an arrival at the end of the
/// last hour, or later, have the same outcome.
pub proof fn lemma_later_arrivals_ignored(
    hours: int,
    n: nat,
    tolerance: i64,
    a: Seq<ArrivalDraw>,
    b: Seq<ArrivalDraw>,
    m: int,
)
    requires
        0 <= hours,
        1 <= m,
        same_start(a, b, m),
        arrival_instant(a, m - 1) >= run_end(hours),
    ensures
        simulate(hours, n, tolerance, a) == simulate(hours, n, tolerance, b),
{
    assert forall|k: int| 0 <= k < m implies record_at(n, a, tolerance, k) == record_at(
        n,
        b,
        tolerance,
        k,
    ) by {
        lemma_same_servers(n, tolerance, a, b, m, k);
        lemma_same_instants(a, b, m, k);
    }
    assert forall|h: int| 0 <= h < hours implies hour_record(n, a, tolerance, h) == hour_record(
        n,
        b,
        tolerance,
        h,
    ) by {
        let lo = arrivals_before(a, h * TICKS_PER_HOUR);
        let hi = arrivals_before(a, (h + 1) * TICKS_PER_HOUR);
        lemma_same_first_at_or_after(a, b, m, h * TICKS_PER_HOUR, 0);
        lemma_same_first_at_or_after(a, b, m, (h + 1) * TICKS_PER_HOUR, 0);
        lemma_arrivals_before_grows(a, h * TICKS_PER_HOUR, (h + 1) * TICKS_PER_HOUR, 0);
        assert(records_between(n, a, tolerance, lo, hi) == records_between(n, b, tolerance, lo, hi));
    }
    let total = arrivals_before(a, hours * TICKS_PER_HOUR);
    lemma_same_first_at_or_after(a, b, m, hours * TICKS_PER_HOUR, 0);
    assert(records_between(n, a, tolerance, 0, total) == records_between(n, b, tolerance, 0, total));
    assert(simulate(hours, n, tolerance, a).hours == simulate(hours, n, tolerance, b).hours);
}

/// A configuration is accepted exactly if it has an hour to simulate, a
/// stage, a positive arrival rate, and no stage whose parameters are
/// refused.
pub proof fn lemma_accepted_configurations(config: SimConfig)
    ensures
        config_rejection(config) is None <==> {
            &&& config.hours > 0
            &&& config.stages.len() > 0
            &&& config.lambda_arrival > 0
            &&& forall|j: int|
                0 <= j < config.stages.len() ==> stage_rejection(#[trigger] config.stages[j])
                    is None
        },
{
    lemma_first_rejected_is_first(config.stages@, config.stages.len() as int);
}

/// A customer leaves exactly if service could not start within the hour of
/// arrival, or the expected wait is longer than accepted and chance decided
/// for leaving; the wait of one who leaves is the expected wait.
pub proof fn lemma_who_leaves(
    busy: Seq<u64>,
    draw: ArrivalDraw,
    car_id: u64,
    arrival: u64,
    tolerance: i64,
)
    ensures
        ({
            let record = customer_record(busy, draw, car_id, arrival, tolerance);
            &&& record.left <==> abandons(busy, arrival, tolerance, draw.abandon_draw)
            &&& record.left ==> record.wait_time == expected_wait(busy, arrival)
            &&& expected_wait(busy, arrival) > tolerance && draw.abandon_draw ==> record.left
        }),
{
}

/// In a run's report, every customer has exactly one outcome, and one who
/// left was served at no stage and took no time.
pub proof fn lemma_reported_outcomes(
    hours: int,
    n: nat,
    tolerance: i64,
    arrivals: Seq<ArrivalDraw>,
    h: int,
    j: int,
)
    requires
        0 <= h < hours,
        0 <= j < simulate(hours, n, tolerance, arrivals).hours[h].cars.len(),
    ensures
        ({
            let record = simulate(hours, n, tolerance, arrivals).hours[h].cars[j];
            &&& record.left || record.pending || record.satisfied
            &&& !(record.left && record.pending)
            &&& !(record.left && record.satisfied)
            &&& !(record.pending && record.satisfied)
            &&& record.left ==> {
                &&& record.stage_durations.len() == 0
                &&& record.stage_start_times.len() == 0
                &&& record.stage_end_times.len() == 0
                &&& record.total_duration == 0
            }
        }),
{
}

} // verus!
