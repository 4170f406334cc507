use csma_ca_simulation::slotted::experiments::{mixed_classes, sweep_cwmins, sweep_users};
use csma_ca_simulation::slotted::simulator::simulate;
use csma_ca_simulation::{SimError, SimulationConfig, SimulationSettings, SweepParameters, TimingPreset};

fn params(trials: u32) -> SweepParameters {
    SweepParameters {
        total_slots: 200,
        payload_bits: 1_500,
        cw_max: 64,
        trials,
        base_seed: 40,
        timing_preset: TimingPreset::Baseline,
    }
}

#[test]
fn slotted_users_sweep_runs_every_point_and_trial() {
    let records = sweep_users(2, 6, 2, 4, &params(2)).expect("slotted users sweep should run");

    assert_eq!(records.len(), 6);
    for (i, record) in records.iter().enumerate() {
        assert_eq!(record.scenario, "sweep-users");
        assert_eq!(record.total_users, 2 + 2 * (i / 2) as u32);
        assert_eq!(record.trial, (i % 2) as u32);
        assert_eq!(record.seed, 40 + (i % 2) as u64);
        assert_eq!(record.cw_min, Some(4));
        assert_eq!(record.lower_cw_min, None);
        assert_eq!(record.class_name, "standard");
        assert_eq!(record.class_users, record.total_users);
        assert_eq!(record.total_slots, 200);
        assert_eq!(record.payload_bits, 1_500);
    }
}

#[test]
fn slotted_sweep_records_match_single_runs() {
    let records = sweep_cwmins(3, 2, 8, 6, &params(1)).expect("slotted cw sweep should run");
    assert_eq!(records.len(), 2);
    assert_eq!(records[1].cw_min, Some(8));

    let config = SimulationConfig::standard(
        3,
        8,
        SimulationSettings {
            total_slots: 200,
            payload_bits: 1_500,
            cw_max: 64,
            seed: 40,
            timing_preset: TimingPreset::Baseline,
        },
    );
    let result = simulate(&config).expect("slotted run should succeed");
    assert_eq!(records[1].successful_packets, result.per_class[0].successful_packets);
    assert_eq!(records[1].collision_attempts, result.per_class[0].collision_attempts);
    assert_eq!(records[1].total_delay_slots, result.per_class[0].total_delay_slots);
}

#[test]
fn slotted_mixed_classes_report_classes_in_name_order() {
    let records = mixed_classes(3, 2, 4, 16, &params(3)).expect("slotted mixed run should succeed");

    assert_eq!(records.len(), 6);
    for (t, pair) in records.chunks(2).enumerate() {
        assert_eq!(pair[0].class_name, "higher-cw");
        assert_eq!(pair[0].class_users, 2);
        assert_eq!(pair[1].class_name, "lower-cw");
        assert_eq!(pair[1].class_users, 3);
        assert_eq!(pair[0].trial, t as u32);
        assert_eq!(pair[1].seed, 40 + t as u64);
        assert_eq!(pair[0].total_users, 5);
        assert_eq!(pair[0].cw_min, None);
        assert_eq!(pair[0].lower_cw_min, Some(4));
        assert_eq!(pair[0].higher_cw_min, Some(16));
    }
}

#[test]
fn slotted_sweeps_without_trials_yield_nothing() {
    assert_eq!(sweep_users(1, 3, 1, 4, &params(0)), Ok(Vec::new()));
    assert_eq!(sweep_cwmins(2, 0, 4, 2, &params(0)), Ok(Vec::new()));
    assert_eq!(mixed_classes(0, 0, 0, 0, &params(0)), Ok(Vec::new()));
}

#[test]
fn slotted_sweeps_report_errors_in_order() {
    let p = params(2);
    assert_eq!(sweep_users(1, 2, 0, 4, &p), Err(SimError::ZeroStep));
    assert_eq!(sweep_users(3, 2, 1, 4, &p), Err(SimError::RangeStartAfterEnd));
    assert_eq!(sweep_cwmins(2, 4, u32::MAX, u32::MAX - 1, &p), Err(SimError::RangeOverflow));
    assert_eq!(sweep_cwmins(2, 0, 4, 2, &p), Err(SimError::ZeroCwMin));
    assert_eq!(sweep_cwmins(2, 60, 70, 8, &p), Err(SimError::CwMinAboveCwMax));
    assert_eq!(sweep_users(0, 2, 1, 4, &p), Err(SimError::EmptyClass));
    assert_eq!(mixed_classes(0, 2, 4, 8, &p), Err(SimError::EmptyClass));

    let mut no_slots = params(2);
    no_slots.total_slots = 0;
    assert_eq!(mixed_classes(1, 1, 4, 8, &no_slots), Err(SimError::ZeroTotalSlots));
    let mut no_payload = params(2);
    no_payload.payload_bits = 0;
    assert_eq!(sweep_users(1, 1, 1, 4, &no_payload), Err(SimError::ZeroPayloadBits));
}
