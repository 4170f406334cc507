use csma_ca_simulation::slotted::simulator::{sample_backoff, simulate};
use rand::rngs::StdRng;
use rand::SeedableRng;
use csma_ca_simulation::{SimError, SimulationConfig, SimulationSettings, TimingPreset};

fn settings(total_slots: u64, cw_max: u32, seed: u64) -> SimulationSettings {
    SimulationSettings { total_slots, payload_bits: 1_500, cw_max, seed, timing_preset: TimingPreset::Baseline }
}

#[test]
fn slotted_single_user_never_collides() {
    let config = SimulationConfig::standard(1, 4, settings(512, 32, 11));

    let result = simulate(&config).expect("simulation should run");

    assert!(result.aggregate.total_successful_packets > 0);
    assert_eq!(result.aggregate.collision_events, 0);
    assert_eq!(result.per_class.len(), 1);
    assert_eq!(result.per_class[0].class_name, "standard");
}

#[test]
fn slotted_runs_are_deterministic_and_bounded() {
    let config = SimulationConfig::mixed(6, 6, 4, 16, settings(2_000, 128, 5));

    let first = simulate(&config).expect("first run");
    let second = simulate(&config).expect("second run");

    assert_eq!(first, second);
    assert!(first.aggregate.total_successful_packets + first.aggregate.collision_events <= 2_000);
    assert_eq!(first.per_class[0].class_name, "higher-cw");
    assert_eq!(first.per_class[1].class_name, "lower-cw");
    assert_eq!(first.per_class[0].users + first.per_class[1].users, 12);
}

#[test]
fn slotted_model_rejects_zero_windows() {
    let config = SimulationConfig::standard(2, 0, settings(10, 8, 1));
    assert_eq!(simulate(&config), Err(SimError::ZeroCwMin));

    let config = SimulationConfig::standard(2, 9, settings(10, 8, 1));
    assert_eq!(simulate(&config), Err(SimError::CwMinAboveCwMax));

    let config = SimulationConfig::standard(0, 2, settings(10, 8, 1));
    assert_eq!(simulate(&config), Err(SimError::EmptyClass));

    let config = SimulationConfig::standard(2, 2, settings(0, 8, 1));
    assert_eq!(simulate(&config), Err(SimError::ZeroTotalSlots));
}

#[test]
fn slotted_windows_of_one_send_every_slot() {
    let config = SimulationConfig::standard(1, 1, settings(40, 1, 3));

    let result = simulate(&config).expect("simulation should run");

    assert_eq!(result.aggregate.total_successful_packets, 40);
    assert_eq!(result.aggregate.total_delay_slots, 40);
}

#[test]
fn slotted_classes_add_up_to_the_aggregate() {
    let config = SimulationConfig::mixed(5, 3, 2, 8, settings(600, 64, 9));
    let result = simulate(&config).expect("slotted run should succeed");

    let successes: u64 = result.per_class.iter().map(|class| class.successful_packets).sum();
    let delay: u64 = result.per_class.iter().map(|class| class.total_delay_slots).sum();
    let users: u32 = result.per_class.iter().map(|class| class.users).sum();
    assert_eq!(successes, result.aggregate.total_successful_packets);
    assert_eq!(delay, result.aggregate.total_delay_slots);
    assert_eq!(users, 8);
}

#[test]
fn slotted_backoff_draws_below_the_window() {
    let mut rng = StdRng::seed_from_u64(21);
    assert_eq!(sample_backoff(0, &mut rng), Err(SimError::ZeroContentionWindow));
    assert_eq!(sample_backoff(1, &mut rng), Ok(0));
    for _ in 0..100 {
        assert!(sample_backoff(16, &mut rng).expect("positive window") < 16);
    }
}
