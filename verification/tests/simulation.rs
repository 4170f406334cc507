use csma_ca_simulation::{
    run, simulate, ClassReport, Scenario, SimulationConfig, SimulationSettings, TimingConfig, TimingPreset,
};

fn throughput_bits_per_slot(class: &ClassReport, payload_bits: u64, total_slots: u64) -> f64 {
    (class.successful_packets as f64 * payload_bits as f64) / total_slots as f64
}

fn average_delay_slots(class: &ClassReport) -> f64 {
    if class.successful_packets == 0 {
        0.0
    } else {
        class.total_delay_slots as f64 / class.successful_packets as f64
    }
}

#[test]
fn single_user_has_no_collisions() {
    let config = SimulationConfig::standard(
        1,
        4,
        SimulationSettings {
            total_slots: 512,
            payload_bits: 1_500,
            cw_max: 32,
            seed: 11,
            timing_preset: TimingPreset::Baseline,
        },
    );
    let result = simulate(&config).expect("single-user simulation should run");

    assert!(result.aggregate.total_successful_packets > 0);
    assert_eq!(result.aggregate.collision_events, 0);
}

#[test]
fn seeded_runs_are_deterministic() {
    let config = SimulationConfig::standard(
        12,
        16,
        SimulationSettings {
            total_slots: 5_000,
            payload_bits: 12_000,
            cw_max: 128,
            seed: 77,
            timing_preset: TimingPreset::Baseline,
        },
    );

    let first = simulate(&config).expect("first seeded run should succeed");
    let second = simulate(&config).expect("second seeded run should succeed");

    assert_eq!(first, second);
}

#[test]
fn lower_cw_class_has_better_mixed_class_outcome() {
    let config = SimulationConfig::mixed(
        10,
        10,
        8,
        32,
        SimulationSettings {
            total_slots: 30_000,
            payload_bits: 12_000,
            cw_max: 256,
            seed: 23,
            timing_preset: TimingPreset::Baseline,
        },
    );
    let result = simulate(&config).expect("mixed-class simulation should run");

    let lower = result
        .per_class
        .iter()
        .find(|class| class.class_name == "lower-cw")
        .expect("lower-cw class should exist");
    let higher = result
        .per_class
        .iter()
        .find(|class| class.class_name == "higher-cw")
        .expect("higher-cw class should exist");

    assert!(
        throughput_bits_per_slot(lower, result.payload_bits, result.total_slots)
            > throughput_bits_per_slot(higher, result.payload_bits, result.total_slots)
    );
    assert!(average_delay_slots(lower) < average_delay_slots(higher));
}

#[test]
fn difs_delays_initial_contention() {
    let scenario = Scenario::standard(
        1,
        1,
        5,
        TimingConfig {
            total_slots: 2,
            payload_bits: 1_500,
            difs_slots: 2,
            sifs_slots: 0,
            tx_duration_slots: 1,
            collision_penalty_slots: 0,
        },
        8,
    );

    let result = run(&scenario).expect("scenario with DIFS should run");

    assert_eq!(result.aggregate.total_successful_packets, 0);
    assert_eq!(result.aggregate.collision_events, 0);
}

#[test]
fn zero_difs_allows_immediate_contention() {
    let scenario = Scenario::standard(
        1,
        1,
        5,
        TimingConfig {
            total_slots: 1,
            payload_bits: 1_500,
            difs_slots: 0,
            sifs_slots: 0,
            tx_duration_slots: 1,
        collision_penalty_slots: 0,
        },
        8,
    );

    let result = run(&scenario).expect("scenario without DIFS should run");

    assert_eq!(result.aggregate.total_successful_packets, 1);
}

#[test]
fn difs_gates_every_station_for_its_full_length() {
    let scenario = Scenario::standard(
        6,
        0,
        3,
        TimingConfig {
            total_slots: 4,
            payload_bits: 1_500,
            difs_slots: 4,
            sifs_slots: 0,
            tx_duration_slots: 1,
            collision_penalty_slots: 0,
        },
        8,
    );

    let result = run(&scenario).expect("scenario should run");

    assert_eq!(result.aggregate.total_successful_packets, 0);
    assert_eq!(result.aggregate.collision_events, 0);
    assert_eq!(result.aggregate.total_delay_slots, 0);
}

#[test]
fn config_runs_with_baseline_timing() {
    let config = SimulationConfig::standard(
        3,
        4,
        SimulationSettings {
            total_slots: 64,
            payload_bits: 800,
            cw_max: 16,
            seed: 2,
            timing_preset: TimingPreset::Baseline,
        },
    );
    let scenario = config.to_scenario();

    assert_eq!(scenario.timing.difs_slots, 1);
    assert_eq!(scenario.timing.sifs_slots, 0);
    assert_eq!(scenario.timing.tx_duration_slots, 1);
    assert_eq!(scenario.timing.collision_penalty_slots, 4);
    assert_eq!(scenario.classes[0].name, "standard");
    assert_eq!(config.total_users(), 3);
    assert_eq!(simulate(&config), run(&scenario));
}

#[test]
fn total_users_sums_classes() {
    let timing = TimingConfig {
        total_slots: 1,
        payload_bits: 1,
        difs_slots: 0,
        sifs_slots: 0,
        tx_duration_slots: 1,
        collision_penalty_slots: 0,
    };
    let scenario = Scenario::mixed(3, 9, 1, 2, 0, timing, 4);

    assert_eq!(scenario.total_users(), 12);
    assert_eq!(scenario.classes[0].name, "lower-cw");
    assert_eq!(scenario.classes[1].name, "higher-cw");
}

#[test]
fn sweep_parameters_have_documented_defaults() {
    let params = csma_ca_simulation::SweepParameters::default();

    assert_eq!(params.total_slots, 20_000);
    assert_eq!(params.payload_bits, 12_000);
    assert_eq!(params.cw_max, 1_024);
    assert_eq!(params.trials, 5);
    assert_eq!(params.base_seed, 7);
    assert_eq!(params.timing_preset, TimingPreset::Baseline);
}

#[test]
fn timing_presets_set_the_documented_timings() {
    let settings = |timing_preset| SimulationSettings {
        total_slots: 64,
        payload_bits: 800,
        cw_max: 16,
        seed: 2,
        timing_preset,
    };
    let short = SimulationConfig::standard(3, 4, settings(TimingPreset::ShortDefer)).to_scenario();
    assert_eq!(
        (short.timing.difs_slots, short.timing.sifs_slots, short.timing.tx_duration_slots),
        (0, 0, 1)
    );
    assert_eq!(short.timing.collision_penalty_slots, 4);

    let long = SimulationConfig::standard(3, 4, settings(TimingPreset::LongTransmission)).to_scenario();
    assert_eq!(
        (long.timing.difs_slots, long.timing.sifs_slots, long.timing.tx_duration_slots),
        (1, 1, 3)
    );
    assert_eq!(long.timing.collision_penalty_slots, 6);
    assert_eq!(long.timing.total_slots, 64);
    assert_eq!(long.timing.payload_bits, 800);
}
