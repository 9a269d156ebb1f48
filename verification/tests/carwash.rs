use rust_core::errors::Error;
use rust_core::simulations::carwash::engine::{
    execute_simulation, horizon, tape_is_complete, validate_config,
};
use rust_core::simulations::carwash::prepare::PreparedDist;
use rust_core::simulations::carwash::models::{
    ArrivalDraw, SimConfig, StageConfig, TICKS_PER_HOUR, TICKS_PER_MINUTE,
};
use rust_core::simulations::carwash::pipeline::{add_span, admit_customer};

fn stage(name: &str, dist_type: &str, p1: i64, p2: i64) -> StageConfig {
    StageConfig { name: name.to_string(), dist_type: dist_type.to_string(), p1, p2 }
}

fn config(hours: i32, stages: Vec<StageConfig>, tolerance: i64) -> SimConfig {
    SimConfig { hours, lambda_arrival: 1000, stages, tolerance, abandon_prob: 500 }
}

fn draw(gap: u64, abandon_draw: bool, durations: &[u64]) -> ArrivalDraw {
    ArrivalDraw { gap, abandon_draw, durations: durations.to_vec() }
}

fn two_hour_run() -> (SimConfig, Vec<ArrivalDraw>) {
    let cfg = config(2, vec![stage("wash", "uniform", 5000, 6000)], 10000);
    let tape = vec![
        draw(10000, false, &[5000]),
        draw(2000, true, &[5500]),
        draw(38000, false, &[15000]),
        draw(9000, false, &[5000]),
        draw(2000, false, &[5000]),
        draw(1000, true, &[6000]),
        draw(500, true, &[5000]),
        draw(500, false, &[5000]),
        draw(60000, false, &[5000]),
    ];
    (cfg, tape)
}

#[test]
fn units_of_time() {
    assert_eq!(TICKS_PER_MINUTE, 1000);
    assert_eq!(TICKS_PER_HOUR, 60 * TICKS_PER_MINUTE);
}

#[test]
fn two_hours_are_reported_hour_by_hour() {
    let (cfg, tape) = two_hour_run();
    let report = execute_simulation(&cfg, &tape).unwrap();
    assert_eq!(report.hours.len(), 2);
    assert_eq!(report.total_cars, 8);
    assert_eq!(report.avg_wait_time, 5937);
    assert_eq!(report.max_wait_time, 13500);

    let first = &report.hours[0];
    assert_eq!(first.hour_index, 1);
    assert_eq!(first.estimated_arrivals, 4);
    assert_eq!(first.served_count, 2);
    assert_eq!(first.pending_count, 1);
    assert_eq!(first.left_count, 1);
    assert_eq!(first.cars.len(), 4);

    let second = &report.hours[1];
    assert_eq!(second.hour_index, 2);
    assert_eq!(second.estimated_arrivals, 4);
    assert_eq!(second.served_count, 3);
    assert_eq!(second.pending_count, 0);
    assert_eq!(second.left_count, 1);
    assert_eq!(second.cars.len(), 4);
}

#[test]
fn each_customer_of_the_first_hour() {
    let (cfg, tape) = two_hour_run();
    let report = execute_simulation(&cfg, &tape).unwrap();
    let cars = &report.hours[0].cars;

    assert_eq!(cars[0].car_id, 1);
    assert_eq!(cars[0].arrival_time_abs, 10000);
    assert_eq!(cars[0].arrival_minute, 10000);
    assert_eq!(cars[0].start_time, 10000);
    assert_eq!(cars[0].end_time, 15000);
    assert_eq!(cars[0].total_duration, 5000);
    assert_eq!(cars[0].wait_time, 0);
    assert_eq!(cars[0].idle_time, 10000);
    assert_eq!(cars[0].stage_durations, vec![5000]);
    assert_eq!(cars[0].stage_start_times, vec![10000]);
    assert_eq!(cars[0].stage_end_times, vec![15000]);
    assert!(cars[0].satisfied && !cars[0].pending && !cars[0].left);
    assert_eq!(cars[0].hour_arrived, 1);

    assert_eq!(cars[1].car_id, 2);
    assert_eq!(cars[1].arrival_time_abs, 12000);
    assert_eq!(cars[1].start_time, 15000);
    assert_eq!(cars[1].end_time, 20500);
    assert_eq!(cars[1].total_duration, 8500);
    assert_eq!(cars[1].wait_time, 3000);
    assert_eq!(cars[1].idle_time, 0);
    assert!(cars[1].satisfied);

    assert_eq!(cars[2].arrival_time_abs, 50000);
    assert_eq!(cars[2].end_time, 65000);
    assert_eq!(cars[2].idle_time, 29500);
    assert!(cars[2].pending && !cars[2].satisfied && !cars[2].left);
    assert_eq!(cars[2].hour_arrived, 1);

    assert_eq!(cars[3].car_id, 4);
    assert_eq!(cars[3].arrival_time_abs, 59000);
    assert!(cars[3].left && !cars[3].pending && !cars[3].satisfied);
    assert_eq!(cars[3].wait_time, 6000);
    assert_eq!(cars[3].start_time, 59000);
    assert_eq!(cars[3].end_time, 59000);
    assert_eq!(cars[3].total_duration, 0);
    assert_eq!(cars[3].idle_time, 0);
    assert!(cars[3].stage_durations.is_empty());
}

#[test]
fn each_customer_of_the_second_hour() {
    let (cfg, tape) = two_hour_run();
    let report = execute_simulation(&cfg, &tape).unwrap();
    let cars = &report.hours[1].cars;

    assert_eq!(cars[0].car_id, 5);
    assert_eq!(cars[0].arrival_time_abs, 61000);
    assert_eq!(cars[0].arrival_minute, 1000);
    assert_eq!(cars[0].start_time, 65000);
    assert_eq!(cars[0].end_time, 70000);
    assert_eq!(cars[0].wait_time, 4000);
    assert_eq!(cars[0].hour_arrived, 2);
    assert!(cars[0].satisfied);

    assert_eq!(cars[1].arrival_time_abs, 62000);
    assert_eq!(cars[1].wait_time, 8000);
    assert_eq!(cars[1].end_time, 76000);
    assert!(cars[1].satisfied);

    assert_eq!(cars[2].arrival_time_abs, 62500);
    assert!(cars[2].left);
    assert_eq!(cars[2].wait_time, 13500);

    assert_eq!(cars[3].car_id, 8);
    assert_eq!(cars[3].arrival_time_abs, 63000);
    assert!(!cars[3].left && cars[3].satisfied);
    assert_eq!(cars[3].wait_time, 13000);
    assert_eq!(cars[3].start_time, 76000);
    assert_eq!(cars[3].end_time, 81000);
}

#[test]
fn an_arrival_at_the_horizon_is_not_simulated() {
    let cfg = config(1, vec![stage("wash", "uniform", 1, 2)], 0);
    let tape = vec![draw(59999, false, &[1]), draw(1, false, &[1]), draw(0, false, &[1])];
    let report = execute_simulation(&cfg, &tape).unwrap();
    assert_eq!(report.total_cars, 1);
    assert_eq!(report.hours[0].cars.len(), 1);
    assert_eq!(report.hours[0].cars[0].arrival_time_abs, 59999);
}

#[test]
fn a_run_without_arrivals_reports_empty_hours() {
    let cfg = config(3, vec![stage("wash", "normal", 5000, 100)], 0);
    let report = execute_simulation(&cfg, &Vec::new()).unwrap();
    assert_eq!(report.hours.len(), 3);
    assert_eq!(report.total_cars, 0);
    assert_eq!(report.avg_wait_time, 0);
    assert_eq!(report.max_wait_time, 0);
    for (h, hour) in report.hours.iter().enumerate() {
        assert_eq!(hour.hour_index, h as i32 + 1);
        assert_eq!(hour.estimated_arrivals, 0);
        assert_eq!(hour.served_count + hour.pending_count + hour.left_count, 0);
        assert!(hour.cars.is_empty());
    }
}

#[test]
fn an_empty_hour_between_two_busy_ones() {
    let cfg = config(3, vec![stage("wash", "exponential", 5000, 0)], 1000);
    let tape = vec![draw(1000, false, &[2000]), draw(130000, false, &[2000])];
    let report = execute_simulation(&cfg, &tape).unwrap();
    assert_eq!(report.total_cars, 2);
    assert_eq!(report.hours[0].cars.len(), 1);
    assert_eq!(report.hours[1].cars.len(), 0);
    assert_eq!(report.hours[2].cars.len(), 1);
    assert_eq!(report.hours[2].cars[0].car_id, 2);
    assert_eq!(report.hours[2].cars[0].hour_arrived, 3);
    assert_eq!(report.hours[2].cars[0].arrival_minute, 11000);
    assert_eq!(report.hours[2].cars[0].idle_time, 128000);
}

#[test]
fn one_stage_one_customer_is_served_within_the_hour() {
    let cfg = SimConfig {
        hours: 1,
        lambda_arrival: 1000,
        stages: vec![stage("wash", "uniform", 5000, 5001)],
        tolerance: 1000 * 1000,
        abandon_prob: 1000,
    };
    let tape = vec![draw(20000, true, &[5000]), draw(70000, true, &[5001])];
    let report = execute_simulation(&cfg, &tape).unwrap();
    assert_eq!(report.total_cars, 1);
    assert_eq!(report.hours[0].left_count, 0);
    assert_eq!(report.hours[0].served_count, 1);
    assert!(report.hours[0].cars.iter().all(|c| c.satisfied));
}

#[test]
fn no_stage_is_rejected() {
    let cfg = config(1, Vec::new(), 0);
    let res = execute_simulation(&cfg, &Vec::new());
    assert_eq!(res, Err(Error::Other("Sin etapas".to_string())));
}

#[test]
fn impatient_customers_all_leave_when_they_would_wait() {
    let cfg = SimConfig {
        hours: 1,
        lambda_arrival: 600 * 1000,
        stages: vec![stage("wash", "exponential", 5000, 0)],
        tolerance: 0,
        abandon_prob: 1000,
    };
    let mut tape = Vec::new();
    for _ in 0..40 {
        tape.push(draw(1000, true, &[3500]));
    }
    let report = execute_simulation(&cfg, &tape).unwrap();
    assert_eq!(report.total_cars, 40);
    let mut free_at = 0u64;
    let mut gone = 0;
    for car in &report.hours[0].cars {
        let would_wait = free_at > car.arrival_time_abs;
        assert_eq!(car.left, would_wait);
        if car.left {
            gone += 1;
            assert_eq!(car.wait_time, free_at - car.arrival_time_abs);
        } else {
            assert_eq!(car.wait_time, 0);
            free_at = car.end_time;
        }
    }
    assert_eq!(gone, 30);
    assert_eq!(report.hours[0].left_count, 30);
    assert_eq!(report.hours[0].served_count, 10);
}

#[test]
fn a_patient_customer_stays_though_chance_said_leave() {
    let mut servers = vec![5000u64];
    let rec = admit_customer(&mut servers, &draw(0, true, &[100]), 7, 2000, 3000);
    assert!(!rec.left);
    assert_eq!(rec.wait_time, 3000);
    assert_eq!(rec.start_time, 5000);
    assert_eq!(servers, vec![5100]);
}

#[test]
fn a_customer_past_tolerance_stays_if_chance_says_stay() {
    let mut servers = vec![5000u64];
    let rec = admit_customer(&mut servers, &draw(0, false, &[100]), 7, 2000, 2999);
    assert!(!rec.left);
    assert_eq!(servers, vec![5100]);
    let mut servers = vec![5000u64];
    let rec = admit_customer(&mut servers, &draw(0, true, &[100]), 7, 2000, 2999);
    assert!(rec.left);
    assert_eq!(rec.wait_time, 3000);
    assert_eq!(servers, vec![5000]);
}

#[test]
fn a_negative_tolerance_makes_every_customer_impatient() {
    let mut servers = vec![0u64];
    let rec = admit_customer(&mut servers, &draw(0, true, &[100]), 1, 10, -1);
    assert!(rec.left);
    assert_eq!(rec.wait_time, 0);
    let rec = admit_customer(&mut servers, &draw(0, true, &[100]), 1, 10, 0);
    assert!(!rec.left);
}

#[test]
fn service_that_could_start_only_at_the_end_of_the_hour_is_refused() {
    let mut servers = vec![TICKS_PER_HOUR];
    let rec = admit_customer(&mut servers, &draw(0, false, &[100]), 3, 59000, 1_000_000);
    assert!(rec.left && !rec.satisfied && !rec.pending);
    assert_eq!(rec.wait_time, 1000);
    assert_eq!(rec.total_duration, 0);
    assert!(rec.stage_durations.is_empty());
    assert!(rec.stage_start_times.is_empty());
    assert!(rec.stage_end_times.is_empty());
    assert_eq!(servers, vec![TICKS_PER_HOUR]);

    let mut servers = vec![TICKS_PER_HOUR - 1];
    let rec = admit_customer(&mut servers, &draw(0, false, &[100]), 3, 59000, 1_000_000);
    assert!(!rec.left && rec.pending);
    assert_eq!(rec.start_time, TICKS_PER_HOUR - 1);
    assert_eq!(servers, vec![TICKS_PER_HOUR + 99]);
}

#[test]
fn service_that_ends_with_the_hour_is_within_it() {
    let mut servers = vec![0u64];
    let rec = admit_customer(&mut servers, &draw(0, false, &[1000]), 1, 59000, 0);
    assert_eq!(rec.end_time, TICKS_PER_HOUR);
    assert!(rec.satisfied && !rec.pending);
    let mut servers = vec![0u64];
    let rec = admit_customer(&mut servers, &draw(0, false, &[1001]), 1, 59000, 0);
    assert!(rec.pending && !rec.satisfied);
}

#[test]
fn two_stages_wait_and_idle_add_up() {
    let mut servers = vec![0u64, 0];
    let a = admit_customer(&mut servers, &draw(0, false, &[10, 20]), 1, 0, 100);
    assert_eq!(a.stage_start_times, vec![0, 10]);
    assert_eq!(a.stage_end_times, vec![10, 30]);
    assert_eq!(a.stage_durations, vec![10, 20]);
    assert_eq!(a.wait_time, 0);
    assert_eq!(a.idle_time, 10);
    assert_eq!(a.total_duration, 30);
    assert_eq!(servers, vec![10, 30]);

    let b = admit_customer(&mut servers, &draw(0, false, &[3, 4]), 2, 5, 100);
    assert_eq!(b.start_time, 10);
    assert_eq!(b.stage_start_times, vec![10, 30]);
    assert_eq!(b.stage_end_times, vec![13, 34]);
    assert_eq!(b.wait_time, 22);
    assert_eq!(b.idle_time, 0);
    assert_eq!(b.end_time, 34);
    assert_eq!(b.total_duration, 29);
    assert_eq!(servers, vec![13, 34]);
}

#[test]
fn servers_are_never_free_earlier_and_serve_in_order() {
    let cfg = config(
        2,
        vec![stage("soak", "uniform", 1, 9000), stage("rinse", "normal", 3000, 4), stage("dry", "other", 0, 0)],
        1_000_000,
    );
    let mut tape = Vec::new();
    let spans: [u64; 7] = [700, 4100, 2500, 9000, 300, 6100, 1200];
    for i in 0..30usize {
        tape.push(draw(
            spans[i % 7],
            false,
            &[spans[(i + 1) % 7], spans[(2 * i + 3) % 7], spans[(3 * i + 5) % 7]],
        ));
    }
    let report = execute_simulation(&cfg, &tape).unwrap();
    let served: Vec<_> =
        report.hours.iter().flat_map(|h| h.cars.iter()).filter(|c| !c.left).collect();
    assert!(served.len() > 10);
    for pair in served.windows(2) {
        for s in 0..3 {
            assert!(pair[0].stage_end_times[s] <= pair[1].stage_end_times[s]);
            assert!(pair[0].stage_start_times[s] <= pair[1].stage_start_times[s]);
            assert!(pair[0].stage_end_times[s] <= pair[1].stage_start_times[s]);
        }
    }
    for car in &served {
        for s in 0..3 {
            assert_eq!(car.stage_end_times[s], car.stage_start_times[s] + car.stage_durations[s]);
            if s > 0 {
                assert!(car.stage_start_times[s] >= car.stage_end_times[s - 1]);
            }
        }
    }
}

#[test]
fn customers_are_conserved() {
    let (cfg, tape) = two_hour_run();
    let report = execute_simulation(&cfg, &tape).unwrap();
    let counted: u64 =
        report.hours.iter().map(|h| h.served_count + h.pending_count + h.left_count).sum();
    assert_eq!(counted, report.total_cars);
    let listed: usize = report.hours.iter().map(|h| h.cars.len()).sum();
    assert_eq!(listed as u64, report.total_cars);
    for hour in &report.hours {
        for car in &hour.cars {
            let outcomes = [car.left, car.pending, car.satisfied];
            assert_eq!(outcomes.iter().filter(|&&o| o).count(), 1);
            assert_eq!(car.hour_arrived, hour.hour_index);
        }
    }
}

#[test]
fn customers_who_left_were_not_served() {
    let (cfg, tape) = two_hour_run();
    let report = execute_simulation(&cfg, &tape).unwrap();
    let mut seen = 0;
    for car in report.hours.iter().flat_map(|h| h.cars.iter()).filter(|c| c.left) {
        seen += 1;
        assert!(car.stage_durations.is_empty());
        assert_eq!(car.total_duration, 0);
    }
    assert_eq!(seen, 2);
}

#[test]
fn instants_stay_at_the_last_one() {
    assert_eq!(add_span(5, 7), 12);
    assert_eq!(add_span(u64::MAX - 1, 1), u64::MAX);
    assert_eq!(add_span(u64::MAX - 1, 2), u64::MAX);
    assert_eq!(add_span(u64::MAX, u64::MAX), u64::MAX);
    let cfg = config(1, vec![stage("wash", "uniform", 1, 2)], 0);
    let tape = vec![draw(1, false, &[u64::MAX]), draw(u64::MAX, false, &[1])];
    let report = execute_simulation(&cfg, &tape).unwrap();
    assert_eq!(report.total_cars, 1);
    assert_eq!(report.hours[0].cars[0].end_time, u64::MAX);
    assert_eq!(report.hours[0].cars[0].total_duration, u64::MAX - 1);
    assert!(report.hours[0].cars[0].pending);
}

#[test]
fn no_hours_is_rejected() {
    let stages = vec![stage("wash", "uniform", 1, 2)];
    let refused = Err(Error::Other("Horas debe ser > 0".to_string()));
    assert_eq!(execute_simulation(&config(0, stages.clone(), 0), &Vec::new()), refused);
    assert_eq!(execute_simulation(&config(-3, stages, 0), &Vec::new()), refused);
    assert_eq!(execute_simulation(&config(0, Vec::new(), 0), &Vec::new()), refused);
    assert_eq!(execute_simulation(&config(i32::MIN, Vec::new(), 0), &Vec::new()), refused);
}

#[test]
fn a_rate_that_is_not_positive_is_rejected() {
    let mut cfg = config(1, vec![stage("wash", "uniform", 1, 2)], 0);
    cfg.lambda_arrival = 0;
    assert_eq!(
        execute_simulation(&cfg, &Vec::new()),
        Err(Error::Other("Lambda debe ser > 0".to_string()))
    );
    cfg.lambda_arrival = -1;
    assert_eq!(
        execute_simulation(&cfg, &Vec::new()),
        Err(Error::Other("Lambda debe ser > 0".to_string()))
    );
}

#[test]
fn stage_parameters_are_checked_before_the_rate() {
    let mut cfg = config(
        1,
        vec![
            stage("a", "normal", -5, 0),
            stage("b", "exponential", 0, 0),
            stage("c", "uniform", 3, 3),
        ],
        0,
    );
    cfg.lambda_arrival = 0;
    assert_eq!(execute_simulation(&cfg, &Vec::new()), Err(Error::Other("Beta <= 0 en b".to_string())));
    cfg.stages[1].p1 = 1;
    assert_eq!(execute_simulation(&cfg, &Vec::new()), Err(Error::Other("Min >= Max en c".to_string())));
    cfg.stages[0].p2 = -1;
    assert_eq!(
        execute_simulation(&cfg, &Vec::new()),
        Err(Error::Other("Varianza negativa en a".to_string()))
    );
}

#[test]
fn an_arrival_without_a_time_for_each_stage_is_rejected() {
    let cfg = config(1, vec![stage("a", "uniform", 1, 2), stage("b", "uniform", 1, 2)], 0);
    let tape = vec![draw(1, false, &[1, 1]), draw(100_000_000, false, &[1])];
    assert!(!tape_is_complete(&tape, 2));
    assert!(tape_is_complete(&tape[..1].to_vec(), 2));
    assert!(tape_is_complete(&Vec::new(), 2));
    assert_eq!(execute_simulation(&cfg, &tape), Err(Error::NullOrEmptyInput));
    let tape = vec![draw(1, false, &[1, 1, 1])];
    assert_eq!(execute_simulation(&cfg, &tape), Err(Error::NullOrEmptyInput));
}

#[test]
fn a_run_ends_with_its_last_hour() {
    assert_eq!(horizon(1), 60000);
    assert_eq!(horizon(24), 24 * 60000);
    assert_eq!(horizon(i32::MAX), 2147483647 * 60000);
    assert_eq!(horizon(0), 0);
    assert_eq!(horizon(-1), 0);
}

#[test]
fn an_accepted_configuration_has_its_stages_resolved() {
    let cfg = config(
        1,
        vec![
            stage("a", "normal", 5000, 250),
            stage("b", "exponential", 3000, 0),
            stage("c", "uniform", 1000, 2000),
            stage("d", "triangular", 1, 2),
        ],
        0,
    );
    assert_eq!(
        validate_config(&cfg),
        Ok(vec![
            PreparedDist::Normal { mean: 5000, variance: 250 },
            PreparedDist::Exponential { mean: 3000 },
            PreparedDist::Uniform { min: 1000, max: 2000 },
            PreparedDist::Unknown,
        ])
    );
}

#[test]
fn a_configuration_is_refused_for_its_first_fault() {
    let mut cfg = config(0, Vec::new(), 0);
    cfg.lambda_arrival = 0;
    assert_eq!(validate_config(&cfg), Err(Error::Other("Horas debe ser > 0".to_string())));
    cfg.hours = 1;
    assert_eq!(validate_config(&cfg), Err(Error::Other("Sin etapas".to_string())));
    cfg.stages.push(stage("a", "uniform", 2, 1));
    assert_eq!(validate_config(&cfg), Err(Error::Other("Min >= Max en a".to_string())));
    cfg.stages[0].p2 = 3;
    assert_eq!(validate_config(&cfg), Err(Error::Other("Lambda debe ser > 0".to_string())));
    cfg.lambda_arrival = 1;
    assert_eq!(validate_config(&cfg), Ok(vec![PreparedDist::Uniform { min: 2, max: 3 }]));
}

#[test]
fn what_arrives_after_the_last_hour_changes_nothing() {
    let (cfg, tape) = two_hour_run();
    let report = execute_simulation(&cfg, &tape).unwrap();
    let mut longer = tape.clone();
    longer.push(draw(0, true, &[1]));
    longer.push(draw(5, false, &[70000]));
    assert_eq!(execute_simulation(&cfg, &longer).unwrap(), report);
    let mut other_end = tape.clone();
    other_end[8] = draw(58000, true, &[9]);
    assert_eq!(execute_simulation(&cfg, &other_end).unwrap(), report);
}
