//! What a run is given and what it reports. Time is counted in ticks.

use vstd::prelude::*;

verus! {

/// Ticks in one simulated minute: every instant and every span of time is a
/// whole number of ticks.
pub const TICKS_PER_MINUTE: u64 = 1000;

/// Ticks in one simulated hour, the period by which customers are grouped.
pub const TICKS_PER_HOUR: u64 = 60000;

/// One service stage: its name, the family of its service-time distribution
/// (`"normal"`, `"exponential"` or `"uniform"`), and the family's two
/// parameters in ticks: mean and variance, mean (the second is unused), or
/// minimum and maximum.
#[derive(Debug, Clone, PartialEq, Eq)]
pub struct StageConfig {
    pub name: String,
    pub dist_type: String,
    pub p1: i64,
    pub p2: i64,
}

/// What one run is given: the number of hours to simulate, the mean number of
/// arrivals per hour in thousandths, the stages in the order in which a
/// customer passes them, the wait in ticks that a customer accepts, and the
/// chance in thousandths that a customer who would wait longer leaves.
#[derive(Debug, Clone, PartialEq, Eq)]
pub struct SimConfig {
    pub hours: i32,
    pub lambda_arrival: i64,
    pub stages: Vec<StageConfig>,
    pub tolerance: i64,
    pub abandon_prob: i64,
}

/// What chance decided for one arrival: the time since the arrival before it
/// (for the first, since the start of the run), whether the customer leaves
/// if the wait is longer than accepted, and one service time for each stage.
#[derive(Debug, Clone, PartialEq, Eq)]
pub struct ArrivalDraw {
    pub gap: u64,
    pub abandon_draw: bool,
    pub durations: Vec<u64>,
}

/// What became of one customer. Instants are counted in ticks from the
/// start of the run, spans of time in ticks.
#[derive(Debug, Clone, PartialEq, Eq)]
pub struct CarResult {
    /// The customer's number in order of arrival, from 1.
    pub car_id: u64,
    /// The instant of arrival.
    pub arrival_time_abs: u64,
    /// The time from the start of the hour of arrival to the arrival.
    pub arrival_minute: u64,
    /// The instant at which service at the first stage started; for a
    /// customer who left, the instant of arrival.
    pub start_time: u64,
    /// The instant at which service at the last stage ended; for a customer
    /// who left, the instant of arrival.
    pub end_time: u64,
    /// The time from arrival to the end of service; 0 for a customer who
    /// left.
    pub total_duration: u64,
    /// The time spent waiting for servers; for a customer who left, the wait
    /// that was to be expected on arrival.
    pub wait_time: u64,
    /// The time that servers stood free before this customer reached them.
    pub idle_time: u64,
    /// The service time at each stage; empty for a customer who left.
    pub stage_durations: Vec<u64>,
    /// The instant at which service started at each stage.
    pub stage_start_times: Vec<u64>,
    /// The instant at which service ended at each stage.
    pub stage_end_times: Vec<u64>,
    /// The customer left without entering the first stage.
    pub left: bool,
    /// The customer was served, and service ended after the hour of arrival.
    pub pending: bool,
    /// The customer was served within the hour of arrival.
    pub satisfied: bool,
    /// The hour of arrival, counted from 1.
    pub hour_arrived: i32,
}

/// A customer's record as a mathematical value.
pub ghost struct CarView {
    pub car_id: u64,
    pub arrival_time_abs: u64,
    pub arrival_minute: u64,
    pub start_time: u64,
    pub end_time: u64,
    pub total_duration: u64,
    pub wait_time: u64,
    pub idle_time: u64,
    pub stage_durations: Seq<u64>,
    pub stage_start_times: Seq<u64>,
    pub stage_end_times: Seq<u64>,
    pub left: bool,
    pub pending: bool,
    pub satisfied: bool,
    pub hour_arrived: i32,
}

impl View for CarResult {
    type V = CarView;

    open spec fn view(&self) -> CarView {
        CarView {
            car_id: self.car_id,
            arrival_time_abs: self.arrival_time_abs,
            arrival_minute: self.arrival_minute,
            start_time: self.start_time,
            end_time: self.end_time,
            total_duration: self.total_duration,
            wait_time: self.wait_time,
            idle_time: self.idle_time,
            stage_durations: self.stage_durations@,
            stage_start_times: self.stage_start_times@,
            stage_end_times: self.stage_end_times@,
            left: self.left,
            pending: self.pending,
            satisfied: self.satisfied,
            hour_arrived: self.hour_arrived,
        }
    }
}

/// The customers who arrived in one hour, and how many of them were served
/// within it, were still in service when it ended, or left.
#[derive(Debug, Clone, PartialEq, Eq)]
pub struct HourMetrics {
    /// The hour, counted from 1.
    pub hour_index: i32,
    /// How many customers arrived in the hour.
    pub estimated_arrivals: u64,
    pub served_count: u64,
    pub pending_count: u64,
    pub left_count: u64,
    /// The customers in order of arrival.
    pub cars: Vec<CarResult>,
}

/// An hour's record as a mathematical value.
pub ghost struct HourView {
    pub hour_index: i32,
    pub estimated_arrivals: u64,
    pub served_count: u64,
    pub pending_count: u64,
    pub left_count: u64,
    pub cars: Seq<CarView>,
}

/// The views of a run of customer records, in order.
pub open spec fn cars_view(cars: Seq<CarResult>) -> Seq<CarView> {
    Seq::new(cars.len(), |i: int| cars[i]@)
}

impl View for HourMetrics {
    type V = HourView;

    open spec fn view(&self) -> HourView {
        HourView {
            hour_index: self.hour_index,
            estimated_arrivals: self.estimated_arrivals,
            served_count: self.served_count,
            pending_count: self.pending_count,
            left_count: self.left_count,
            cars: cars_view(self.cars@),
        }
    }
}

/// The outcome of a run: one record for each hour, the number of customers,
/// and the mean and the longest of their waits in ticks.
#[derive(Debug, Clone, PartialEq, Eq)]
pub struct SimulationResponse {
    pub hours: Vec<HourMetrics>,
    pub total_cars: u64,
    pub avg_wait_time: u64,
    pub max_wait_time: u64,
}

/// A run's outcome as a mathematical value.
pub ghost struct ReportView {
    pub hours: Seq<HourView>,
    pub total_cars: u64,
    pub avg_wait_time: u64,
    pub max_wait_time: u64,
}

/// The views of a run of hour records, in order.
pub open spec fn hours_view(hours: Seq<HourMetrics>) -> Seq<HourView> {
    Seq::new(hours.len(), |i: int| hours[i]@)
}

impl View for SimulationResponse {
    type V = ReportView;

    open spec fn view(&self) -> ReportView {
        ReportView {
            hours: hours_view(self.hours@),
            total_cars: self.total_cars,
            avg_wait_time: self.avg_wait_time,
            max_wait_time: self.max_wait_time,
        }
    }
}

} // verus!
