use csma_ca_simulation::sim::dcf::engine::{sample_backoff, validate_scenario, SlotEvent};
use rand::rngs::StdRng;
use rand::SeedableRng;
use csma_ca_simulation::sim::dcf::phase::StationPhase;
use csma_ca_simulation::{run, trace, Scenario, SimError, StationClass, TimingConfig};

fn timing(total_slots: u64, difs_slots: u32, sifs_slots: u32, tx_duration_slots: u32) -> TimingConfig {
    TimingConfig {
        total_slots,
        payload_bits: 1_500,
        difs_slots,
        sifs_slots,
        tx_duration_slots,
        collision_penalty_slots: 4,
    }
}

#[test]
fn validation_rejects_zero_tx_duration() {
    let scenario = Scenario::standard(
        1,
        4,
        1,
        TimingConfig {
            total_slots: 10,
            payload_bits: 1_500,
            difs_slots: 1,
            sifs_slots: 0,
            tx_duration_slots: 0,
            collision_penalty_slots: 4,
        },
        32,
    );

    assert!(validate_scenario(&scenario).is_err());
}

#[test]
fn validation_reports_each_error() {
    let base = Scenario::standard(2, 4, 1, timing(10, 1, 0, 1), 32);
    assert_eq!(validate_scenario(&base), Ok(()));

    let mut s = base.clone();
    s.timing.total_slots = 0;
    assert_eq!(validate_scenario(&s), Err(SimError::ZeroTotalSlots));

    let mut s = base.clone();
    s.timing.payload_bits = 0;
    assert_eq!(validate_scenario(&s), Err(SimError::ZeroPayloadBits));

    let mut s = base.clone();
    s.window.cw_max = 0;
    assert_eq!(validate_scenario(&s), Err(SimError::ZeroCwMax));

    let mut s = base.clone();
    s.timing.tx_duration_slots = 0;
    assert_eq!(validate_scenario(&s), Err(SimError::ZeroTxDuration));

    let mut s = base.clone();
    s.classes.clear();
    assert_eq!(validate_scenario(&s), Err(SimError::NoClasses));

    let mut s = base.clone();
    s.classes.push(StationClass { name: String::from("empty"), users: 0, cw_min: 99 });
    assert_eq!(validate_scenario(&s), Err(SimError::EmptyClass));

    let mut s = base.clone();
    s.classes[0].cw_min = 33;
    assert_eq!(validate_scenario(&s), Err(SimError::CwMinAboveCwMax));
    assert_eq!(run(&s), Err(SimError::CwMinAboveCwMax));
}

#[test]
fn transmit_duration_and_sifs_extend_busy_period() {
    let scenario = Scenario::standard(
        1,
        1,
        1,
        TimingConfig {
            total_slots: 3,
            payload_bits: 1_500,
            difs_slots: 0,
            sifs_slots: 1,
            tx_duration_slots: 2,
            collision_penalty_slots: 4,
        },
        8,
    );

    let result = run(&scenario).expect("scenario should run");

    assert_eq!(result.aggregate.total_successful_packets, 1);
}

#[test]
fn zero_cw_min_scenario_runs_as_pathological_case() {
    let scenario = Scenario::standard(
        4,
        0,
        7,
        TimingConfig {
            total_slots: 32,
            payload_bits: 1_500,
            difs_slots: 0,
            sifs_slots: 0,
            tx_duration_slots: 1,
            collision_penalty_slots: 4,
        },
        31,
    );

    let result = run(&scenario).expect("cw=0 scenario should run");

    assert!(result.aggregate.collision_events > 0);
}

#[test]
fn trace_emits_one_frame_per_slot() {
    let scenario = Scenario::standard(
        2,
        1,
        5,
        TimingConfig {
            total_slots: 6,
            payload_bits: 1_500,
            difs_slots: 0,
            sifs_slots: 0,
            tx_duration_slots: 1,
            collision_penalty_slots: 4,
        },
        7,
    );

    let result = trace(&scenario).expect("trace should run");

    assert_eq!(result.frames.len(), 6);
    assert_eq!(result.report.total_slots, 6);
}

#[test]
fn trace_captures_collision_or_success_events() {
    let scenario = Scenario::standard(
        4,
        1,
        7,
        TimingConfig {
            total_slots: 12,
            payload_bits: 1_500,
            difs_slots: 0,
            sifs_slots: 0,
            tx_duration_slots: 1,
            collision_penalty_slots: 4,
        },
        7,
    );

    let result = trace(&scenario).expect("trace should run");

    assert!(result.frames.iter().any(|frame| {
        matches!(
            frame.event,
            SlotEvent::Collision { .. } | SlotEvent::Success { .. }
        )
    }));
}

#[test]
fn zero_cw_min_collides_in_the_first_slot() {
    let scenario = Scenario::standard(3, 0, 9, timing(4, 0, 0, 1), 7);

    let result = trace(&scenario).expect("trace should run");

    assert_eq!(result.frames[0].event, SlotEvent::Collision { station_ids: vec![0, 1, 2] });
    assert_eq!(result.frames[0].progress.aggregate.collision_events, 1);
    for station in &result.frames[0].stations {
        assert_eq!(station.collision_attempts, 1);
        assert_eq!(station.current_cw, 1);
        assert!(station.backoff_counter <= 1);
    }
}

#[test]
fn trace_frames_are_numbered_and_consistent_with_report() {
    let scenario = Scenario::mixed(3, 2, 2, 8, 11, timing(200, 1, 0, 1), 63);

    let result = trace(&scenario).expect("trace should run");

    for (k, frame) in result.frames.iter().enumerate() {
        assert_eq!(frame.slot, k as u64);
        assert_eq!(frame.progress.elapsed_slots, k as u64 + 1);
        assert_eq!(frame.stations.len(), 5);
    }
    let last = result.frames.last().expect("frames");
    assert_eq!(last.progress.aggregate, result.report.aggregate);
    assert_eq!(last.progress.per_class, result.report.per_class);
}

#[test]
fn delay_plus_age_equals_elapsed_slots() {
    let scenario = Scenario::standard(5, 3, 21, timing(150, 1, 1, 2), 63);

    let result = trace(&scenario).expect("trace should run");

    for frame in &result.frames {
        let total_delay: u64 = frame.progress.aggregate.total_delay_slots;
        let ages: u64 = frame.stations.iter().map(|s| s.packet_age_slots).sum();
        assert_eq!(total_delay + ages, 5 * (frame.slot + 1));
    }
}

#[test]
fn backoff_stays_within_window_and_window_within_bounds() {
    let scenario = Scenario::mixed(4, 4, 1, 8, 3, timing(400, 1, 0, 1), 31);

    let result = trace(&scenario).expect("trace should run");

    for frame in &result.frames {
        for station in &frame.stations {
            assert!(station.backoff_counter <= station.current_cw);
            if let Some(frozen) = station.frozen_backoff_counter {
                assert!(frozen <= station.current_cw);
            }
            assert!(station.current_cw <= 31);
        }
    }
}

#[test]
fn successes_and_collisions_fit_in_the_slots() {
    let scenario = Scenario::standard(10, 2, 4, timing(300, 0, 0, 1), 255);

    let result = run(&scenario).expect("scenario should run");

    assert!(result.aggregate.total_successful_packets + result.aggregate.collision_events <= 300);
}

#[test]
fn per_class_report_is_sorted_and_complete() {
    let mut scenario = Scenario::mixed(3, 4, 2, 8, 5, timing(500, 1, 0, 1), 63);
    scenario.classes.push(StationClass { name: String::from("lower-cw"), users: 2, cw_min: 2 });

    let result = run(&scenario).expect("scenario should run");

    assert_eq!(result.per_class.len(), 2);
    assert_eq!(result.per_class[0].class_name, "higher-cw");
    assert_eq!(result.per_class[0].users, 4);
    assert_eq!(result.per_class[1].class_name, "lower-cw");
    assert_eq!(result.per_class[1].users, 5);
    let sum: u64 = result.per_class.iter().map(|c| c.successful_packets).sum();
    assert_eq!(sum, result.aggregate.total_successful_packets);
}

#[test]
fn busy_event_follows_a_long_success() {
    let scenario = Scenario::standard(1, 0, 1, timing(4, 0, 2, 3), 8);

    let result = trace(&scenario).expect("trace should run");

    assert_eq!(result.frames[0].event, SlotEvent::Success { station_id: 0 });
    assert_eq!(result.frames[0].medium_busy_slots_remaining, 4);
    assert_eq!(result.frames[1].event, SlotEvent::Busy { busy_slots_remaining: 3 });
    assert_eq!(result.frames[1].stations[0].phase, StationPhase::WaitingForMedium);
}

#[test]
fn class_reports_add_up_to_the_aggregate() {
    let scenario = Scenario::mixed(3, 4, 2, 8, 5, timing(400, 1, 1, 2), 63);
    let report = run(&scenario).expect("mixed scenario should run");

    assert_eq!(report.per_class.len(), 2);
    let users: u32 = report.per_class.iter().map(|class| class.users).sum();
    let successes: u64 = report.per_class.iter().map(|class| class.successful_packets).sum();
    let delay: u64 = report.per_class.iter().map(|class| class.total_delay_slots).sum();
    assert_eq!(users, 7);
    assert_eq!(successes, report.aggregate.total_successful_packets);
    assert_eq!(delay, report.aggregate.total_delay_slots);
    assert!(successes > 0);
}

#[test]
fn sample_backoff_can_hit_inclusive_upper_bound() {
    let saw_upper_bound = (0_u64..64).any(|seed| {
        let mut rng = StdRng::seed_from_u64(seed);
        sample_backoff(1, &mut rng).expect("cw=1 should be valid") == 1
    });

    assert!(saw_upper_bound);
}

#[test]
fn sample_backoff_allows_zero_window() {
    let mut rng = StdRng::seed_from_u64(7);

    let sample = sample_backoff(0, &mut rng).expect("cw=0 should be valid");

    assert_eq!(sample, 0);
}

#[test]
fn sample_backoff_stays_within_the_window() {
    let mut rng = StdRng::seed_from_u64(3);
    for cw in [0_u32, 1, 7, 31, 1_023] {
        for _ in 0..50 {
            assert!(sample_backoff(cw, &mut rng).expect("every window is valid") <= cw);
        }
    }
}

#[test]
fn collisions_pair_up_and_successes_wait_past_difs() {
    for (difs, seed) in [(0_u32, 1_u64), (1, 2), (3, 3)] {
        let scenario = Scenario::mixed(4, 3, 1, 2, seed, timing(500, difs, 1, 2), 15);
        let report = run(&scenario).expect("contended scenario should run");

        let attempts: u64 = report.per_class.iter().map(|class| class.collision_attempts).sum();
        assert!(report.aggregate.collision_events > 0);
        assert!(attempts >= 2 * report.aggregate.collision_events);
        assert!(
            report.aggregate.total_delay_slots
                >= u64::from(difs + 1) * report.aggregate.total_successful_packets
        );
    }
}

#[test]
fn run_fails_exactly_when_validation_does() {
    let good = Scenario::standard(2, 4, 1, timing(10, 1, 0, 1), 32);
    assert_eq!(validate_scenario(&good), Ok(()));
    assert!(run(&good).is_ok());

    let mut bad = good.clone();
    bad.window.cw_max = 2;
    assert_eq!(validate_scenario(&bad), Err(SimError::CwMinAboveCwMax));
    assert_eq!(run(&bad).err(), Some(SimError::CwMinAboveCwMax));
}

#[test]
fn exported_trace_matches_its_report() {
    let scenario = Scenario::standard(2, 1, 5, timing(6, 0, 0, 1), 7);
    let tr = trace(&scenario).expect("trace should run");

    assert_eq!(tr.frames.len(), 6);
    assert_eq!(tr.report.total_slots, 6);
    for (i, frame) in tr.frames.iter().enumerate() {
        assert_eq!(frame.slot, i as u64);
    }
    assert_eq!(tr.report, run(&scenario).expect("run should succeed"));
}

#[test]
fn progress_counts_starved_stations_and_the_busiest_one() {
    let scenario = Scenario::mixed(3, 3, 1, 31, 9, timing(300, 1, 0, 1), 63);
    let tr = trace(&scenario).expect("trace should run");

    for frame in &tr.frames {
        let zero = frame.stations.iter().filter(|station| station.successful_packets == 0).count();
        let most = frame.stations.iter().map(|station| station.successful_packets).max().unwrap_or(0);
        assert_eq!(frame.progress.zero_success_stations as usize, zero);
        assert_eq!(frame.progress.max_station_successes, most);
    }
    let first = &tr.frames[0].progress;
    assert_eq!(first.zero_success_stations, 6);
    assert_eq!(first.max_station_successes, 0);
}

#[test]
fn every_frame_shows_every_station_within_its_window() {
    let scenario = Scenario::mixed(4, 2, 1, 8, 13, timing(120, 1, 1, 2), 31);
    let tr = trace(&scenario).expect("trace should run");

    for (i, frame) in tr.frames.iter().enumerate() {
        assert_eq!(frame.progress.elapsed_slots, i as u64 + 1);
        assert_eq!(frame.stations.len(), 6);
        for (j, station) in frame.stations.iter().enumerate() {
            assert_eq!(station.id, j);
            assert!(station.backoff_counter <= station.current_cw);
            assert!(station.current_cw <= 31);
        }
    }
}
