//! One customer at a time: whether the customer leaves, and if not the walk
//! through the stages, each of which has one server that serves one
//! customer at a time.

use vstd::prelude::*;
use super::models::{ArrivalDraw, CarResult, CarView, TICKS_PER_HOUR};

verus! {

/// The instant that lies `span` after `instant`; past the last instant that
/// a `u64` holds it stays at that one.
pub open spec fn sat_add(instant: u64, span: u64) -> u64 {
    if instant + span > u64::MAX {
        u64::MAX
    } else {
        (instant + span) as u64
    }
}

/// The later of two instants.
pub open spec fn later(a: u64, b: u64) -> u64 {
    if a >= b {
        a
    } else {
        b
    }
}

/// The instant at which a customer who entered at `entry` has passed the
/// first `i` stages, where `busy[j]` is the instant at which the server of
/// stage `j` is free and `durations[j]` is the service time at stage `j`.
pub open spec fn ready_at(busy: Seq<u64>, durations: Seq<u64>, entry: u64, i: int) -> u64
    decreases i,
{
    if i <= 0 {
        entry
    } else {
        sat_add(later(ready_at(busy, durations, entry, i - 1), busy[i - 1]), durations[i - 1])
    }
}

/// The instant at which service at stage `i` starts: when both the customer
/// and the server are there.
pub open spec fn stage_start(busy: Seq<u64>, durations: Seq<u64>, entry: u64, i: int) -> u64 {
    later(ready_at(busy, durations, entry, i), busy[i])
}

/// The instant at which service at stage `i` ends.
pub open spec fn stage_end(busy: Seq<u64>, durations: Seq<u64>, entry: u64, i: int) -> u64 {
    sat_add(stage_start(busy, durations, entry, i), durations[i])
}

/// The time that the customer spent waiting for servers at the first `i`
/// stages.
pub open spec fn wait_through(busy: Seq<u64>, durations: Seq<u64>, entry: u64, i: int) -> int
    decreases i,
{
    if i <= 0 {
        0
    } else {
        wait_through(busy, durations, entry, i - 1) + (stage_start(
            busy,
            durations,
            entry,
            i - 1,
        ) - ready_at(busy, durations, entry, i - 1))
    }
}

/// The time that the servers of the first `i` stages spent free before this
/// customer reached them, summed as instants are.
pub open spec fn idle_through(busy: Seq<u64>, durations: Seq<u64>, entry: u64, i: int) -> u64
    decreases i,
{
    if i <= 0 {
        0
    } else {
        sat_add(
            idle_through(busy, durations, entry, i - 1),
            (stage_start(busy, durations, entry, i - 1) - busy[i - 1]) as u64,
        )
    }
}

/// The first instant of the hour in which `arrival` lies.
pub open spec fn hour_start_of(arrival: u64) -> u64 {
    ((arrival / TICKS_PER_HOUR) * TICKS_PER_HOUR) as u64
}

/// The instant at which the hour of `arrival` ends; it belongs to the next
/// hour.
pub open spec fn hour_end_of(arrival: u64) -> int {
    hour_start_of(arrival) + TICKS_PER_HOUR
}

/// The earliest instant at which a customer who arrives at `arrival` could
/// enter the first stage.
pub open spec fn candidate_start(busy: Seq<u64>, arrival: u64) -> u64 {
    if busy.len() > 0 {
        later(arrival, busy[0])
    } else {
        arrival
    }
}

/// The wait that a customer who arrives at `arrival` has to expect.
pub open spec fn expected_wait(busy: Seq<u64>, arrival: u64) -> int {
    candidate_start(busy, arrival) - arrival
}

/// Whether the customer leaves without entering the first stage: service
/// could not start before the hour of arrival ends, or the expected wait is
/// longer than `tolerance` and chance decided for leaving.
pub open spec fn abandons(busy: Seq<u64>, arrival: u64, tolerance: i64, abandon_draw: bool) -> bool {
    candidate_start(busy, arrival) >= hour_end_of(arrival) || (expected_wait(busy, arrival)
        > tolerance && abandon_draw)
}

/// The record of a customer who left on arrival.
pub open spec fn abandoned_record(busy: Seq<u64>, car_id: u64, arrival: u64) -> CarView {
    CarView {
        car_id,
        arrival_time_abs: arrival,
        arrival_minute: (arrival - hour_start_of(arrival)) as u64,
        start_time: arrival,
        end_time: arrival,
        total_duration: 0,
        wait_time: expected_wait(busy, arrival) as u64,
        idle_time: 0,
        stage_durations: Seq::empty(),
        stage_start_times: Seq::empty(),
        stage_end_times: Seq::empty(),
        left: true,
        pending: false,
        satisfied: false,
        hour_arrived: (arrival / TICKS_PER_HOUR + 1) as i32,
    }
}

/// The record of a customer who passed every stage.
pub open spec fn served_record(busy: Seq<u64>, durations: Seq<u64>, car_id: u64, arrival: u64) -> CarView {
    let n = busy.len() as int;
    let entry = candidate_start(busy, arrival);
    let end_time = ready_at(busy, durations, entry, n);
    CarView {
        car_id,
        arrival_time_abs: arrival,
        arrival_minute: (arrival - hour_start_of(arrival)) as u64,
        start_time: entry,
        end_time,
        total_duration: (end_time - arrival) as u64,
        wait_time: (entry - arrival + wait_through(busy, durations, entry, n)) as u64,
        idle_time: idle_through(busy, durations, entry, n),
        stage_durations: durations,
        stage_start_times: Seq::new(busy.len(), |i: int| stage_start(busy, durations, entry, i)),
        stage_end_times: Seq::new(busy.len(), |i: int| stage_end(busy, durations, entry, i)),
        left: false,
        pending: end_time > hour_end_of(arrival),
        satisfied: end_time <= hour_end_of(arrival),
        hour_arrived: (arrival / TICKS_PER_HOUR + 1) as i32,
    }
}

/// The record of the customer who arrives at `arrival` and finds the servers
/// free at the instants `busy`.
pub open spec fn customer_record(
    busy: Seq<u64>,
    draw: ArrivalDraw,
    car_id: u64,
    arrival: u64,
    tolerance: i64,
) -> CarView {
    if abandons(busy, arrival, tolerance, draw.abandon_draw) {
        abandoned_record(busy, car_id, arrival)
    } else {
        served_record(busy, draw.durations@, car_id, arrival)
    }
}

/// The instants at which the servers are free once that customer has been
/// dealt with: unchanged if the customer left, else each server is free when
/// it has served the customer.
pub open spec fn servers_after(busy: Seq<u64>, draw: ArrivalDraw, arrival: u64, tolerance: i64) -> Seq<u64> {
    if abandons(busy, arrival, tolerance, draw.abandon_draw) {
        busy
    } else {
        Seq::new(
            busy.len(),
            |i: int| stage_end(busy, draw.durations@, candidate_start(busy, arrival), i),
        )
    }
}

/// The sum `sat_add`, computed.
pub fn add_span(instant: u64, span: u64) -> (sum: u64)
    ensures
        sum == sat_add(instant, span),
{
    instant.saturating_add(span)
}

/// Deals with the customer who arrives at `arrival`: decides whether the
/// customer leaves, and if not walks the customer through the stages in
/// order, reserving each server until it has served the customer.
pub fn admit_customer(
    servers: &mut Vec<u64>,
    draw: &ArrivalDraw,
    car_id: u64,
    arrival: u64,
    tolerance: i64,
) -> (record: CarResult)
    requires
        draw.durations.len() == old(servers).len(),
        arrival / TICKS_PER_HOUR < i32::MAX,
    ensures
        record@ == customer_record(old(servers)@, *draw, car_id, arrival, tolerance),
        final(servers)@ == servers_after(old(servers)@, *draw, arrival, tolerance),
        final(servers).len() == old(servers).len(),
        forall|i: int|
            0 <= i < old(servers).len() ==> old(servers)@[i] <= #[trigger] final(servers)@[i],
        record.left ==> record.stage_durations.len() == 0 && record.total_duration == 0,
        record.left ==> final(servers)@ == old(servers)@,
        candidate_start(old(servers)@, arrival) >= hour_end_of(arrival) ==> record.left,
{
    let ghost busy = servers@;
    let ghost durations = draw.durations@;
    let n = servers.len();
    let hour: u64 = arrival / TICKS_PER_HOUR;
    let hour_start: u64 = hour * TICKS_PER_HOUR;
    let hour_end: u64 = hour_start + TICKS_PER_HOUR;
    let arrival_minute: u64 = arrival - hour_start;
    let hour_arrived: i32 = (hour + 1) as i32;
    let candidate: u64 = if n > 0 && servers[0] > arrival {
        servers[0]
    } else {
        arrival
    };
    let wait_ahead: u64 = candidate - arrival;
    let impatient = tolerance < 0 || wait_ahead > tolerance as u64;
    if candidate >= hour_end || (impatient && draw.abandon_draw) {
        return CarResult {
            car_id,
            arrival_time_abs: arrival,
            arrival_minute,
            start_time: arrival,
            end_time: arrival,
            total_duration: 0,
            wait_time: wait_ahead,
            idle_time: 0,
            stage_durations: Vec::new(),
            stage_start_times: Vec::new(),
            stage_end_times: Vec::new(),
            left: true,
            pending: false,
            satisfied: false,
            hour_arrived,
        };
    }
    let mut current: u64 = candidate;
    let mut total_wait: u64 = wait_ahead;
    let mut total_idle: u64 = 0;
    let mut stage_durations: Vec<u64> = Vec::new();
    let mut stage_start_times: Vec<u64> = Vec::new();
    let mut stage_end_times: Vec<u64> = Vec::new();
    let mut i: usize = 0;
    while i < n
        invariant
            i <= n,
            n == busy.len(),
            n == servers.len(),
            durations == draw.durations@,
            durations.len() == n,
            arrival <= candidate <= current,
            current == ready_at(busy, durations, candidate, i as int),
            total_wait == candidate - arrival + wait_through(busy, durations, candidate, i as int),
            total_wait <= current - arrival,
            total_idle == idle_through(busy, durations, candidate, i as int),
            forall|j: int| 0 <= j < i ==> servers@[j] == stage_end(busy, durations, candidate, j),
            forall|j: int| i <= j < n ==> servers@[j] == busy[j],
            stage_durations@ == durations.subrange(0, i as int),
            stage_start_times@ == Seq::new(i as nat, |j: int| stage_start(busy, durations, candidate, j)),
            stage_end_times@ == Seq::new(i as nat, |j: int| stage_end(busy, durations, candidate, j)),
        decreases n - i,
    {
        let server_free_at: u64 = servers[i];
        let start: u64 = if current > server_free_at {
            current
        } else {
            server_free_at
        };
        if start > server_free_at {
            total_idle = add_span(total_idle, start - server_free_at);
        }
        if start > current {
            total_wait = total_wait + (start - current);
        }
        let duration: u64 = draw.durations[i];
        let end: u64 = add_span(start, duration);
        stage_durations.push(duration);
        stage_start_times.push(start);
        stage_end_times.push(end);
        servers.set(i, end);
        current = end;
        i = i + 1;
    }
    assert(stage_durations@ == durations);
    CarResult {
        car_id,
        arrival_time_abs: arrival,
        arrival_minute,
        start_time: candidate,
        end_time: current,
        total_duration: current - arrival,
        wait_time: total_wait,
        idle_time: total_idle,
        stage_durations,
        stage_start_times,
        stage_end_times,
        left: false,
        pending: current > hour_end,
        satisfied: current <= hour_end,
        hour_arrived,
    }
}

} // verus!
