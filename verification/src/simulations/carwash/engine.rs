//! A whole run: the customers in order of arrival, hour by hour, and the
//! figures over all of them.

use vstd::prelude::*;
use vstd::string::StringExecFns;
use crate::errors::{Error, ErrorView};
use super::models::{
    ArrivalDraw, CarResult, CarView, HourMetrics, HourView, ReportView, SimConfig,
    SimulationResponse, TICKS_PER_HOUR, cars_view, hours_view,
};
use super::laws::{customers_counted, lemma_customers_conserved};
use super::pipeline::{add_span, admit_customer, customer_record, later, sat_add, servers_after};
use super::prepare::{PreparedDist, first_rejected, prepare_stages, prepared, stage_rejection};

verus! {

/// The instant at which customer `k` arrives: the gaps up to and including
/// the customer's own, summed from the start of the run.
pub open spec fn arrival_instant(arrivals: Seq<ArrivalDraw>, k: int) -> u64
    decreases k + 1,
{
    if k < 0 {
        0
    } else {
        sat_add(arrival_instant(arrivals, k - 1), arrivals[k].gap)
    }
}

/// The first customer from `k` on who arrives at `bound` or later, or the
/// number of arrivals if there is none.
pub open spec fn first_at_or_after(arrivals: Seq<ArrivalDraw>, bound: int, k: int) -> int
    decreases arrivals.len() - k,
{
    if k >= arrivals.len() || arrival_instant(arrivals, k) >= bound {
        k
    } else {
        first_at_or_after(arrivals, bound, k + 1)
    }
}

/// How many customers arrive before the first who arrives at `bound` or
/// later.
pub open spec fn arrivals_before(arrivals: Seq<ArrivalDraw>, bound: int) -> int {
    first_at_or_after(arrivals, bound, 0)
}

/// The instants at which the `n` servers are free when customer `k` arrives:
/// all servers are free at the start of the run, and each customer before
/// `k` has been dealt with in turn.
pub open spec fn servers_at(n: nat, arrivals: Seq<ArrivalDraw>, tolerance: i64, k: int) -> Seq<u64>
    decreases k,
{
    if k <= 0 {
        Seq::new(n, |i: int| 0u64)
    } else {
        servers_after(
            servers_at(n, arrivals, tolerance, k - 1),
            arrivals[k - 1],
            arrival_instant(arrivals, k - 1),
            tolerance,
        )
    }
}

/// The record of customer `k`; customers are numbered from 1.
pub open spec fn record_at(n: nat, arrivals: Seq<ArrivalDraw>, tolerance: i64, k: int) -> CarView {
    customer_record(
        servers_at(n, arrivals, tolerance, k),
        arrivals[k],
        (k + 1) as u64,
        arrival_instant(arrivals, k),
        tolerance,
    )
}

/// The records of the customers from `from` up to, not including, `to`.
pub open spec fn records_between(
    n: nat,
    arrivals: Seq<ArrivalDraw>,
    tolerance: i64,
    from: int,
    to: int,
) -> Seq<CarView> {
    Seq::new((to - from) as nat, |j: int| record_at(n, arrivals, tolerance, from + j))
}

/// How many of the customers were served within their hour of arrival.
pub open spec fn count_satisfied(cars: Seq<CarView>) -> nat
    decreases cars.len(),
{
    if cars.len() == 0 {
        0
    } else {
        count_satisfied(cars.drop_last()) + if cars.last().satisfied {
            1nat
        } else {
            0nat
        }
    }
}

/// How many of the customers were still in service when their hour of
/// arrival ended.
pub open spec fn count_pending(cars: Seq<CarView>) -> nat
    decreases cars.len(),
{
    if cars.len() == 0 {
        0
    } else {
        count_pending(cars.drop_last()) + if cars.last().pending {
            1nat
        } else {
            0nat
        }
    }
}

/// How many of the customers left without being served.
pub open spec fn count_left(cars: Seq<CarView>) -> nat
    decreases cars.len(),
{
    if cars.len() == 0 {
        0
    } else {
        count_left(cars.drop_last()) + if cars.last().left {
            1nat
        } else {
            0nat
        }
    }
}

/// The customers' waits, summed.
pub open spec fn wait_sum(cars: Seq<CarView>) -> nat
    decreases cars.len(),
{
    if cars.len() == 0 {
        0
    } else {
        wait_sum(cars.drop_last()) + cars.last().wait_time as nat
    }
}

/// The longest of the customers' waits; 0 if there is no customer.
pub open spec fn longest_wait(cars: Seq<CarView>) -> u64
    decreases cars.len(),
{
    if cars.len() == 0 {
        0
    } else {
        later(longest_wait(cars.drop_last()), cars.last().wait_time)
    }
}

/// The record of hour `h`, counted from 0: the customers from the first who
/// arrives in that hour or later up to the first who arrives after it.
pub open spec fn hour_record(n: nat, arrivals: Seq<ArrivalDraw>, tolerance: i64, h: int) -> HourView {
    let cars = records_between(
        n,
        arrivals,
        tolerance,
        arrivals_before(arrivals, h * TICKS_PER_HOUR),
        arrivals_before(arrivals, (h + 1) * TICKS_PER_HOUR),
    );
    HourView {
        hour_index: (h + 1) as i32,
        estimated_arrivals: cars.len() as u64,
        served_count: count_satisfied(cars) as u64,
        pending_count: count_pending(cars) as u64,
        left_count: count_left(cars) as u64,
        cars,
    }
}

/// The mean of the customers' waits, rounded down; 0 if there is no customer.
pub open spec fn mean_wait(cars: Seq<CarView>) -> int {
    if cars.len() == 0 {
        0
    } else {
        wait_sum(cars) as int / cars.len() as int
    }
}

/// The instant at which a run of `hours` hours ends; no customer who
/// arrives then or later is dealt with.
pub open spec fn run_end(hours: int) -> int {
    hours * TICKS_PER_HOUR
}

/// The outcome of a run of `hours` hours over `n` stages: the customers who
/// arrive before the last hour ends, each under the hour of arrival.
pub open spec fn simulate(hours: int, n: nat, tolerance: i64, arrivals: Seq<ArrivalDraw>) -> ReportView {
    let total = arrivals_before(arrivals, run_end(hours));
    let all = records_between(n, arrivals, tolerance, 0, total);
    ReportView {
        hours: Seq::new(hours as nat, |h: int| hour_record(n, arrivals, tolerance, h)),
        total_cars: total as u64,
        avg_wait_time: mean_wait(all) as u64,
        max_wait_time: longest_wait(all),
    }
}

/// Whether every arrival brings one service time for each of `n` stages.
pub open spec fn tape_complete(arrivals: Seq<ArrivalDraw>, n: nat) -> bool {
    forall|k: int| 0 <= k < arrivals.len() ==> (#[trigger] arrivals[k]).durations.len() == n
}

/// Why a configuration is refused, if it is. In this order: no hour to
/// simulate; no stage; the first stage whose parameters are refused; an
/// arrival rate that is not positive.
pub open spec fn config_rejection(config: SimConfig) -> Option<ErrorView> {
    if config.hours <= 0 {
        Some(ErrorView::Other("Horas debe ser > 0"@))
    } else if config.stages.len() == 0 {
        Some(ErrorView::Other("Sin etapas"@))
    } else if first_rejected(config.stages@, config.stages.len() as int) is Some {
        stage_rejection(config.stages[first_rejected(config.stages@, config.stages.len() as int).unwrap()])
    } else if config.lambda_arrival <= 0 {
        Some(ErrorView::Other("Lambda debe ser > 0"@))
    } else {
        None
    }
}

/// Why a run is refused, if it is: for its configuration, or else for an
/// arrival without a service time for each stage.
pub open spec fn rejection(config: SimConfig, arrivals: Seq<ArrivalDraw>) -> Option<ErrorView> {
    if config_rejection(config) is Some {
        config_rejection(config)
    } else if !tape_complete(arrivals, config.stages.len() as nat) {
        Some(ErrorView::NullOrEmptyInput)
    } else {
        None
    }
}

/// The first arrival at `bound` or later is `k` if every arrival from `j`
/// up to `k` is earlier and `k` itself is not, or is past the last.
pub proof fn lemma_first_at_or_after(arrivals: Seq<ArrivalDraw>, bound: int, j: int, k: int)
    requires
        0 <= j <= k <= arrivals.len(),
        forall|i: int| j <= i < k ==> arrival_instant(arrivals, i) < bound,
        k == arrivals.len() || arrival_instant(arrivals, k) >= bound,
    ensures
        first_at_or_after(arrivals, bound, j) == k,
    decreases k - j,
{
    if j < k {
        lemma_first_at_or_after(arrivals, bound, j + 1, k);
    }
}

/// The instant at which a run of `hours` hours ends; a run without hours
/// ends as it starts.
pub fn horizon(hours: i32) -> (end: u64)
    ensures
        end == if hours > 0 {
            run_end(hours as int)
        } else {
            0
        },
{
    if hours > 0 {
        hours as u64 * TICKS_PER_HOUR
    } else {
        0
    }
}

/// Whether every arrival brings one service time for each of `n` stages.
pub fn tape_is_complete(arrivals: &Vec<ArrivalDraw>, n: usize) -> (complete: bool)
    ensures
        complete == tape_complete(arrivals@, n as nat),
{
    let mut k: usize = 0;
    while k < arrivals.len()
        invariant
            k <= arrivals.len(),
            forall|j: int| 0 <= j < k ==> (#[trigger] arrivals@[j]).durations.len() == n,
        decreases arrivals.len() - k,
    {
        if arrivals[k].durations.len() != n {
            return false;
        }
        k = k + 1;
    }
    true
}

/// Checks a configuration, once and before anything is simulated, and
/// resolves the distribution of each stage.
pub fn validate_config(config: &SimConfig) -> (res: Result<Vec<PreparedDist>, Error>)
    ensures
        match res {
            Ok(dists) => {
                &&& config_rejection(*config) is None
                &&& dists.len() == config.stages.len()
                &&& forall|i: int|
                    0 <= i < config.stages.len() ==> dists[i] == prepared(#[trigger] config.stages[i])
            },
            Err(e) => config_rejection(*config) == Some(e@),
        },
{
    if config.hours <= 0 {
        return Err(Error::Other(String::from_str("Horas debe ser > 0")));
    }
    if config.stages.len() == 0 {
        return Err(Error::Other(String::from_str("Sin etapas")));
    }
    let dists = match prepare_stages(&config.stages) {
        Ok(dists) => dists,
        Err(e) => {
            return Err(e);
        },
    };
    if config.lambda_arrival <= 0 {
        return Err(Error::Other(String::from_str("Lambda debe ser > 0")));
    }
    Ok(dists)
}

/// Runs the simulation: checks the configuration and the arrivals before
/// anything else, then deals with the customers in order of arrival until
/// the last hour ends, and reports them hour by hour.
pub fn execute_simulation(config: &SimConfig, arrivals: &Vec<ArrivalDraw>) -> (res: Result<
    SimulationResponse,
    Error,
>)
    ensures
        match res {
            Ok(report) => {
                &&& rejection(*config, arrivals@) is None
                &&& report@ == simulate(
                    config.hours as int,
                    config.stages.len() as nat,
                    config.tolerance,
                    arrivals@,
                )
                &&& report.hours.len() == config.hours
                &&& customers_counted(report@.hours) == report.total_cars
            },
            Err(e) => rejection(*config, arrivals@) == Some(e@),
        },
{
    match validate_config(config) {
        Ok(_) => {},
        Err(e) => {
            return Err(e);
        },
    }
    let n = config.stages.len();
    if !tape_is_complete(arrivals, n) {
        return Err(Error::NullOrEmptyInput);
    }
    let ghost arr = arrivals@;
    let ghost stages = n as nat;
    let tolerance = config.tolerance;
    let hours = config.hours;
    let mut servers: Vec<u64> = Vec::new();
    let mut s: usize = 0;
    while s < n
        invariant
            s <= n,
            servers.len() == s,
            forall|i: int| 0 <= i < s ==> servers@[i] == 0,
        decreases n - s,
    {
        servers.push(0);
        s = s + 1;
    }
    let mut sim_hours: Vec<HourMetrics> = Vec::new();
    let mut k: usize = 0;
    let mut clock: u64 = if arrivals.len() > 0 {
        arrivals[0].gap
    } else {
        0
    };
    let mut total_wait: u128 = 0;
    let mut max_wait: u64 = 0;
    let mut hour_idx: i32 = 0;
    assert(arrival_instant(arr, -1) == 0);
    while hour_idx < hours
        invariant
            0 <= hour_idx <= hours,
            arr == arrivals@,
            stages == n,
            tape_complete(arr, stages),
            servers.len() == n,
            servers@ == servers_at(stages, arr, tolerance, k as int),
            k <= arrivals.len(),
            k == arrivals_before(arr, hour_idx * TICKS_PER_HOUR),
            forall|j: int| 0 <= j < k ==> arrival_instant(arr, j) < hour_idx * TICKS_PER_HOUR,
            k < arrivals.len() ==> clock == arrival_instant(arr, k as int),
            total_wait == wait_sum(records_between(stages, arr, tolerance, 0, k as int)),
            total_wait <= k * u64::MAX,
            max_wait == longest_wait(records_between(stages, arr, tolerance, 0, k as int)),
            sim_hours.len() == hour_idx,
            hours_view(sim_hours@) == Seq::new(
                hour_idx as nat,
                |h: int| hour_record(stages, arr, tolerance, h),
            ),
        decreases hours - hour_idx,
    {
        let hour_end: u64 = (hour_idx as u64 + 1) * TICKS_PER_HOUR;
        let ghost lo = k as int;
        let mut cars_in_hour: Vec<CarResult> = Vec::new();
        let mut served_in_hour: u64 = 0;
        let mut pending_in_hour: u64 = 0;
        let mut left_in_hour: u64 = 0;
        while k < arrivals.len() && clock < hour_end
            invariant
                0 <= hour_idx < hours,
                hour_end == (hour_idx + 1) * TICKS_PER_HOUR,
                arr == arrivals@,
                stages == n,
                tape_complete(arr, stages),
                servers.len() == n,
                servers@ == servers_at(stages, arr, tolerance, k as int),
                0 <= lo <= k <= arrivals.len(),
                forall|j: int| 0 <= j < k ==> arrival_instant(arr, j) < hour_end,
                k < arrivals.len() ==> clock == arrival_instant(arr, k as int),
                total_wait == wait_sum(records_between(stages, arr, tolerance, 0, k as int)),
                total_wait <= k * u64::MAX,
                max_wait == longest_wait(records_between(stages, arr, tolerance, 0, k as int)),
                cars_in_hour.len() == k - lo,
                cars_view(cars_in_hour@) == records_between(stages, arr, tolerance, lo, k as int),
                served_in_hour == count_satisfied(cars_view(cars_in_hour@)),
                pending_in_hour == count_pending(cars_view(cars_in_hour@)),
                left_in_hour == count_left(cars_view(cars_in_hour@)),
                served_in_hour + pending_in_hour + left_in_hour == cars_in_hour.len(),
            decreases arrivals.len() - k,
        {
            let ghost before = records_between(stages, arr, tolerance, 0, k as int);
            let ghost cars_before = cars_view(cars_in_hour@);
            let ghost held = cars_in_hour@;
            let record = admit_customer(&mut servers, &arrivals[k], (k + 1) as u64, clock, tolerance);
            if record.satisfied {
                served_in_hour = served_in_hour + 1;
            }
            if record.pending {
                pending_in_hour = pending_in_hour + 1;
            }
            if record.left {
                left_in_hour = left_in_hour + 1;
            }
            total_wait = total_wait + record.wait_time as u128;
            if record.wait_time > max_wait {
                max_wait = record.wait_time;
            }
            cars_in_hour.push(record);
            k = k + 1;
            if k < arrivals.len() {
                clock = add_span(clock, arrivals[k].gap);
            }
            proof {
                let after = records_between(stages, arr, tolerance, 0, k as int);
                assert(after.drop_last() == before);
                let cars_after = cars_view(cars_in_hour@);
                assert forall|i: int| 0 <= i < cars_after.len() implies cars_after[i] == record_at(
                    stages,
                    arr,
                    tolerance,
                    lo + i,
                ) by {
                    if i < held.len() {
                        assert(cars_before[i] == held[i]@);
                    }
                }
                assert(cars_after.drop_last() == cars_before);
            }
        }
        proof {
            lemma_first_at_or_after(arr, hour_end as int, 0, k as int);
        }
        let hour = HourMetrics {
            hour_index: hour_idx + 1,
            estimated_arrivals: cars_in_hour.len() as u64,
            served_count: served_in_hour,
            pending_count: pending_in_hour,
            left_count: left_in_hour,
            cars: cars_in_hour,
        };
        let ghost hours_before = hours_view(sim_hours@);
        let ghost hours_held = sim_hours@;
        sim_hours.push(hour);
        hour_idx = hour_idx + 1;
        assert forall|h: int| 0 <= h < hour_idx implies hours_view(sim_hours@)[h] == hour_record(
            stages,
            arr,
            tolerance,
            h,
        ) by {
            if h < hours_held.len() {
                assert(hours_before[h] == hours_held[h]@);
            }
        }
    }
    proof {
        lemma_customers_conserved(hours as int, stages, tolerance, arr);
    }
    let avg_wait: u64 = if k > 0 {
        assert(total_wait / (k as u128) <= u64::MAX) by (nonlinear_arith)
            requires
                total_wait <= k * u64::MAX,
                k > 0,
        ;
        (total_wait / (k as u128)) as u64
    } else {
        0
    };
    Ok(
        SimulationResponse {
            hours: sim_hours,
            total_cars: k as u64,
            avg_wait_time: avg_wait,
            max_wait_time: max_wait,
        },
    )
}

} // verus!
