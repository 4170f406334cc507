use csma_ca_simulation::experiments::seed_schedule::TrialSeedSchedule;
use csma_ca_simulation::experiments::{mixed_classes, sweep_cw_values, sweep_cwmins, sweep_users};
use csma_ca_simulation::{SimError, SweepParameters, TimingPreset};

fn baseline_params() -> SweepParameters {
    SweepParameters {
        total_slots: 256,
        payload_bits: 1_500,
        cw_max: 1_024,
        trials: 3,
        base_seed: 17,
        timing_preset: TimingPreset::Baseline,
    }
}

#[test]
fn seed_schedule_adds_trial_to_base() {
    assert_eq!(TrialSeedSchedule::new(5, 0), Err(SimError::ZeroTrials));
    let schedule = TrialSeedSchedule::new(5, 3).expect("schedule");
    assert_eq!(schedule.seed_for_trial(2), Ok(7));
    assert_eq!(schedule.seed_for_trial(3), Err(SimError::TrialOutOfRange));
    let edge = TrialSeedSchedule::new(u64::MAX, 2).expect("schedule");
    assert_eq!(edge.seed_for_trial(0), Ok(u64::MAX));
    assert_eq!(edge.seed_for_trial(1), Err(SimError::SeedOverflow));
}

#[test]
fn users_sweep_yields_one_record_per_point_and_trial() {
    let records = sweep_users(4, 8, 4, 8, &baseline_params()).expect("users sweep should run");

    assert_eq!(records.len(), 6);
    for (i, record) in records.iter().enumerate() {
        assert_eq!(record.scenario, "sweep-users");
        assert_eq!(record.total_users, if i < 3 { 4 } else { 8 });
        assert_eq!(record.trial, (i % 3) as u32);
        assert_eq!(record.seed, 17 + (i % 3) as u64);
        assert_eq!(record.cw_min, Some(8));
        assert_eq!(record.class_name, "standard");
        assert_eq!(record.class_users, record.total_users);
        assert_eq!(record.total_slots, 256);
        assert_eq!(record.payload_bits, 1_500);
        assert!(record.successful_packets + record.collision_attempts <= 256 * 8);
    }
}

#[test]
fn cw_sweep_allows_zero_minimum_window() {
    let records = sweep_cwmins(8, 0, 8, 4, &baseline_params()).expect("cw=0 sweep should run");

    assert_eq!(records.len(), 9);
    assert_eq!(records[0].cw_min, Some(0));
    assert_eq!(records[8].cw_min, Some(8));
    assert_eq!(records[0].scenario, "sweep-cw");
    assert!(records[0].successful_packets > 0);
}

#[test]
fn mixed_classes_report_both_classes_per_trial() {
    let records = mixed_classes(4, 4, 4, 16, &baseline_params()).expect("mixed sweep should run");

    assert_eq!(records.len(), 6);
    for pair in records.chunks(2) {
        assert_eq!(pair[0].class_name, "higher-cw");
        assert_eq!(pair[1].class_name, "lower-cw");
        assert_eq!(pair[0].trial, pair[1].trial);
        assert_eq!(pair[0].total_users, 8);
        assert_eq!(pair[0].lower_cw_min, Some(4));
        assert_eq!(pair[0].higher_cw_min, Some(16));
        assert_eq!(pair[0].cw_min, None);
    }
}

#[test]
fn sweeps_report_errors_in_order() {
    let mut params = baseline_params();
    params.trials = 0;
    assert_eq!(sweep_users(1, 2, 1, 4, &params), Err(SimError::ZeroTrials));
    assert_eq!(mixed_classes(1, 1, 1, 1, &params), Err(SimError::ZeroTrials));

    let params = baseline_params();
    assert_eq!(sweep_users(1, 2, 0, 4, &params), Err(SimError::ZeroStep));
    assert_eq!(sweep_users(0, 2, 1, 4, &params), Err(SimError::EmptyClass));
    assert_eq!(sweep_cwmins(2, 1000, 1030, 30, &params), Err(SimError::CwMinAboveCwMax));

    let mut params = baseline_params();
    params.base_seed = u64::MAX;
    assert_eq!(mixed_classes(1, 1, 1, 1, &params), Err(SimError::SeedOverflow));
}

#[test]
fn cw_list_sweep_runs_each_listed_window_in_order() {
    let records = sweep_cw_values(4, &vec![16, 0, 8], &baseline_params()).expect("cw list sweep should run");

    assert_eq!(records.len(), 9);
    let windows: Vec<Option<u32>> = records.iter().map(|record| record.cw_min).collect();
    assert_eq!(
        windows,
        vec![Some(16), Some(16), Some(16), Some(0), Some(0), Some(0), Some(8), Some(8), Some(8)]
    );
    for (i, record) in records.iter().enumerate() {
        assert_eq!(record.scenario, "sweep-cw");
        assert_eq!(record.total_users, 4);
        assert_eq!(record.trial, (i % 3) as u32);
        assert_eq!(record.seed, 17 + (i % 3) as u64);
    }
    let single = sweep_cwmins(4, 0, 0, 1, &baseline_params()).expect("single-point sweep should run");
    assert_eq!(records[3..6].to_vec(), single);
}

#[test]
fn cw_list_sweep_reports_errors() {
    let mut params = baseline_params();
    params.trials = 0;
    assert_eq!(sweep_cw_values(4, &vec![8], &params), Err(SimError::ZeroTrials));
    let params = baseline_params();
    assert_eq!(sweep_cw_values(4, &vec![8, 2_000], &params), Err(SimError::CwMinAboveCwMax));
    assert_eq!(sweep_cw_values(0, &vec![8], &params), Err(SimError::EmptyClass));
    assert_eq!(sweep_cw_values(4, &Vec::new(), &params), Ok(Vec::new()));
}

#[test]
fn sweep_records_carry_the_timing_preset() {
    let mut params = baseline_params();
    params.timing_preset = TimingPreset::LongTransmission;
    let records = sweep_users(4, 4, 1, 8, &params).expect("long-transmission sweep should run");

    assert_eq!(records.len(), 3);
    assert!(records.iter().all(|record| record.timing_preset == TimingPreset::LongTransmission));
    let baseline = sweep_users(4, 4, 1, 8, &baseline_params()).expect("baseline sweep should run");
    assert!(baseline.iter().all(|record| record.timing_preset == TimingPreset::Baseline));
}

#[test]
fn mixed_records_pair_up_trial_by_trial() {
    let params = baseline_params();
    let records = mixed_classes(3, 5, 2, 8, &params).expect("mixed sweep should run");

    assert_eq!(records.len(), 2 * params.trials as usize);
    for t in 0..params.trials as usize {
        assert_eq!(records[2 * t].class_name, "higher-cw");
        assert_eq!(records[2 * t + 1].class_name, "lower-cw");
        assert_eq!(records[2 * t].class_users, 5);
        assert_eq!(records[2 * t + 1].class_users, 3);
        assert_eq!(records[2 * t].trial, t as u32);
        assert_eq!(records[2 * t + 1].seed, params.base_seed + t as u64);
    }
}
