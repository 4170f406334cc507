use csma_ca_simulation::sim::dcf::backoff::BackoffState;
use csma_ca_simulation::sim::dcf::medium::MediumState;
use csma_ca_simulation::sim::dcf::phase::StationPhase;
use csma_ca_simulation::sim::dcf::resolver::{resolve_transmission, TransmissionResolution};
use csma_ca_simulation::sim::dcf::station::StationRuntime;
use csma_ca_simulation::sim::dcf::timing::TimingModel;
use csma_ca_simulation::sim::dcf::window::ContentionWindow;
use csma_ca_simulation::TimingConfig;

fn station() -> StationRuntime {
    StationRuntime {
        id: 0,
        class_name: String::from("standard"),
        phase: StationPhase::BackoffCountdown,
        cw_min: 15,
        window: ContentionWindow::new(15, 1023),
        backoff: BackoffState::new(4),
        defer_slots_remaining: 0,
        packet_age_slots: 0,
        successful_packets: 0,
        collision_attempts: 0,
        total_delay_slots: 0,
    }
}

#[test]
fn decrement_stops_at_zero() {
    let mut backoff = BackoffState::new(1);

    backoff.decrement();
    backoff.decrement();

    assert_eq!(backoff.counter, 0);
}

#[test]
fn freeze_and_resume_restore_counter() {
    let mut backoff = BackoffState::new(7);

    backoff.freeze();
    backoff.decrement();
    backoff.resume();

    assert_eq!(backoff.counter, 7);
    assert_eq!(backoff.frozen_counter, None);
}

#[test]
fn replace_clears_frozen_counter() {
    let mut backoff = BackoffState::new(3);
    backoff.freeze();

    backoff.replace(9);

    assert_eq!(backoff.counter, 9);
    assert_eq!(backoff.frozen_counter, None);
}

#[test]
fn resume_without_freeze_keeps_counter() {
    let mut backoff = BackoffState::new(5);
    backoff.decrement();

    backoff.resume();

    assert_eq!(backoff.counter, 4);
    assert_eq!(backoff.frozen_counter, None);
}

#[test]
fn busy_slots_count_down_to_idle() {
    let mut medium = MediumState::idle();

    medium.start_busy(2);
    assert!(medium.is_busy());

    medium.consume_busy_slot();
    assert!(medium.is_busy());

    medium.consume_busy_slot();
    assert!(!medium.is_busy());
}

#[test]
fn idle_slots_reset_when_busy_starts() {
    let mut medium = MediumState::idle();
    medium.observe_idle_slot();
    medium.observe_idle_slot();

    medium.start_busy(1);

    assert_eq!(medium.idle_slots, 0);
}

#[test]
fn idle_slot_count_saturates() {
    let mut medium = MediumState { busy_slots_remaining: 0, idle_slots: u32::MAX };

    medium.observe_idle_slot();

    assert_eq!(medium.idle_slots, u32::MAX);
}

#[test]
fn consuming_an_idle_medium_stays_idle() {
    let mut medium = MediumState { busy_slots_remaining: 0, idle_slots: 3 };

    medium.consume_busy_slot();

    assert_eq!(medium, MediumState { busy_slots_remaining: 0, idle_slots: 0 });
}

#[test]
fn no_contenders_means_idle() {
    assert_eq!(resolve_transmission(Vec::new()), TransmissionResolution::Idle);
}

#[test]
fn one_contender_means_success() {
    assert_eq!(
        resolve_transmission(vec![4]),
        TransmissionResolution::Success { station_id: 4 }
    );
}

#[test]
fn multiple_contenders_mean_collision() {
    assert_eq!(
        resolve_transmission(vec![1, 2]),
        TransmissionResolution::Collision { station_ids: vec![1, 2] }
    );
}

#[test]
fn enter_defer_uses_defer_phase_when_slots_remain() {
    let mut station = station();

    station.enter_defer(2);

    assert_eq!(station.phase, StationPhase::Defer);
    assert_eq!(station.defer_slots_remaining, 2);
}

#[test]
fn enter_defer_without_slots_resumes_countdown() {
    let mut station = station();
    station.freeze_for_busy();
    station.backoff.decrement();

    station.enter_defer(0);

    assert_eq!(station.phase, StationPhase::BackoffCountdown);
    assert_eq!(station.backoff_counter(), 4);
    assert!(!station.is_ready_to_transmit());
}

#[test]
fn freeze_for_busy_preserves_backoff_counter() {
    let mut station = station();

    station.freeze_for_busy();
    station.backoff.decrement();
    station.enter_defer(1);
    station.advance_idle_slot();

    assert_eq!(station.phase, StationPhase::BackoffCountdown);
    assert_eq!(station.backoff.counter, 4);
}

#[test]
fn idle_slot_counts_down_defer_before_backoff() {
    let mut station = station();
    station.enter_defer(1);

    station.advance_idle_slot();
    assert_eq!(station.backoff.counter, 4);

    station.advance_idle_slot();
    assert_eq!(station.backoff.counter, 3);
}

#[test]
fn counting_station_is_ready_at_zero() {
    let mut station = station();
    for _ in 0..4 {
        station.advance_idle_slot();
    }

    assert_eq!(station.backoff_counter(), 0);
    assert!(station.is_ready_to_transmit());
    assert_eq!(station.current_cw(), 15);
}

#[test]
fn success_busy_slots_include_sifs() {
    let timing = TimingModel::new(TimingConfig {
        total_slots: 10,
        payload_bits: 1_500,
        difs_slots: 2,
        sifs_slots: 1,
        tx_duration_slots: 3,
        collision_penalty_slots: 0,
    });

    assert_eq!(timing.busy_slots_after_success(), 3);
}

#[test]
fn collision_busy_slots_ignore_sifs() {
    let timing = TimingModel::new(TimingConfig {
        total_slots: 10,
        payload_bits: 1_500,
        difs_slots: 2,
        sifs_slots: 4,
        tx_duration_slots: 3,
        collision_penalty_slots: 0,
    });

    assert_eq!(timing.busy_slots_after_collision(), 2);
}

#[test]
fn collision_busy_slots_add_penalty() {
    let timing = TimingModel::new(TimingConfig {
        total_slots: 10,
        payload_bits: 1_500,
        difs_slots: 2,
        sifs_slots: 4,
        tx_duration_slots: 3,
        collision_penalty_slots: 5,
    });

    assert_eq!(timing.busy_slots_after_collision(), 7);
    assert_eq!(timing.defer_slots(), 2);
}

#[test]
fn busy_slots_saturate() {
    let timing = TimingModel::new(TimingConfig {
        total_slots: 10,
        payload_bits: 1_500,
        difs_slots: 0,
        sifs_slots: u32::MAX,
        tx_duration_slots: 0,
        collision_penalty_slots: 0,
    });

    assert_eq!(timing.busy_slots_after_success(), u32::MAX);
    assert_eq!(timing.busy_slots_after_collision(), 0);
}

#[test]
fn increase_binary_exponential_uses_spec_rule() {
    let mut window = ContentionWindow::new(15, 1023);

    window.increase_binary_exponential();

    assert_eq!(window.current, 31);
}

#[test]
fn increase_binary_exponential_caps_at_maximum() {
    let mut window = ContentionWindow::new(31, 63);
    window.current = 63;

    window.increase_binary_exponential();

    assert_eq!(window.current, 63);
}

#[test]
fn increase_binary_exponential_saturates() {
    let mut window = ContentionWindow::new(1, u32::MAX);
    window.current = u32::MAX - 1;

    window.increase_binary_exponential();

    assert_eq!(window.current, u32::MAX);
}

#[test]
fn reset_restores_minimum() {
    let mut window = ContentionWindow::new(7, 255);
    window.increase_binary_exponential();
    window.increase_binary_exponential();
    assert_eq!(window.current, 31);

    window.reset();

    assert_eq!(window.current, 7);
}

#[test]
fn reset_after_any_growth_restores_the_fresh_window() {
    for growths in 0..40 {
        let mut window = ContentionWindow::new(3, 1_023);
        for _ in 0..growths {
            window.increase_binary_exponential();
        }
        window.reset();
        assert_eq!(window, ContentionWindow::new(3, 1_023));
    }
}
