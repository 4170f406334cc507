use csma_ca_simulation::demo::{
    build_demo_scenario, phase_label, preset_label, DemoKey, DemoPreset, PlaybackState,
};
use csma_ca_simulation::sim::dcf::phase::StationPhase;

#[test]
fn mixed_preset_creates_two_classes() {
    let scenario = build_demo_scenario(DemoPreset::Mixed, 7, 120);

    assert_eq!(scenario.classes.len(), 2);
    assert_eq!(scenario.classes[0].name, "lower-cw");
    assert_eq!(scenario.classes[1].name, "higher-cw");
}

#[test]
fn collision_preset_uses_high_contention() {
    let scenario = build_demo_scenario(DemoPreset::Collision, 7, 120);

    assert_eq!(scenario.classes.len(), 1);
    assert_eq!(scenario.classes[0].cw_min, 1);
    assert_eq!(scenario.classes[0].users, 6);
}

#[test]
fn single_preset_has_one_station() {
    let scenario = build_demo_scenario(DemoPreset::Single, 3, 50);

    assert_eq!(scenario.total_users(), 1);
    assert_eq!(scenario.classes[0].cw_min, 8);
    assert_eq!(scenario.window.cw_max, 32);
    assert_eq!(scenario.timing.total_slots, 50);
    assert_eq!(scenario.seed, 3);
}

#[test]
fn labels_name_presets_and_phases() {
    assert_eq!(preset_label(DemoPreset::Mixed), "mixed");
    assert_eq!(preset_label(DemoPreset::Collision), "collision");
    assert_eq!(phase_label(StationPhase::CollisionRecovery), "recovery");
    assert_eq!(phase_label(StationPhase::BackoffCountdown), "backoff");
}

#[test]
fn playback_pauses_at_the_last_frame() {
    let mut playback = PlaybackState::new(2, 150);

    playback.advance();
    assert_eq!(playback.frame_index, 1);
    assert!(!playback.paused);

    playback.advance();
    assert_eq!(playback.frame_index, 1);
    assert!(playback.paused);
}

#[test]
fn playback_keys_change_speed_and_position() {
    let mut playback = PlaybackState::new(20, 150);

    assert!(!playback.handle_key(DemoKey::Faster));
    assert_eq!(playback.tick_ms, 75);
    playback.handle_key(DemoKey::Faster);
    playback.handle_key(DemoKey::Faster);
    assert_eq!(playback.tick_ms, 25);
    playback.handle_key(DemoKey::Slower);
    assert_eq!(playback.tick_ms, 50);

    playback.handle_key(DemoKey::Step);
    assert!(playback.paused);
    assert_eq!(playback.frame_index, 1);
    playback.handle_key(DemoKey::TogglePause);
    assert!(!playback.paused);
    playback.handle_key(DemoKey::Restart);
    assert_eq!(playback.frame_index, 0);
    assert!(playback.handle_key(DemoKey::Quit));

    let slow = PlaybackState { tick_ms: 1_990, ..playback };
    let mut slow = slow;
    slow.handle_key(DemoKey::Slower);
    assert_eq!(slow.tick_ms, 2_000);
}

#[test]
fn recent_events_cover_eight_frames() {
    let mut playback = PlaybackState::new(30, 100);
    assert_eq!(playback.recent_event_range(), (0, 0));
    for _ in 0..12 {
        playback.advance();
    }
    assert_eq!(playback.recent_event_range(), (5, 12));
}

#[test]
fn captions_toggle_with_their_key() {
    let mut playback = PlaybackState::new(4, 150);
    assert!(playback.captions);
    assert!(!playback.handle_key(DemoKey::ToggleCaptions));
    assert!(!playback.captions);
    assert_eq!(playback.frame_index, 0);
    playback.handle_key(DemoKey::ToggleCaptions);
    assert!(playback.captions);
}
