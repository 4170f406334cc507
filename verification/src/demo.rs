use vstd::prelude::*;

use crate::domain::scenario::{Scenario, TimingConfig};
use crate::sim::dcf::phase::StationPhase;

verus! {

/// The scenarios the live demo can replay.
#[derive(Debug, Clone, Copy, PartialEq, Eq, Structural)]
pub enum DemoPreset {
    Single,
    Collision,
    Mixed,
}

/// The demo's timing: one DIFS slot, no SIFS, one-slot transmissions, 12,000-bit payloads.
pub open spec fn demo_timing(slots: u64) -> TimingConfig {
    TimingConfig {
        total_slots: slots,
        payload_bits: 12_000,
        difs_slots: 1,
        sifs_slots: 0,
        tx_duration_slots: 1,
        collision_penalty_slots: 0,
    }
}

/// The scenario of a preset: one station (window 8, cap 32); six stations contending hard
/// (window 1, cap 31); or five "lower-cw" stations (window 4) against five "higher-cw"
/// stations (window 16) under a cap of 63.
pub fn build_demo_scenario(preset: DemoPreset, seed: u64, slots: u64) -> (scenario: Scenario)
    ensures
        scenario.seed == seed,
        scenario.timing == demo_timing(slots),
        scenario.timing.total_slots == slots,
        scenario.timing.difs_slots == 1,
        scenario.timing.sifs_slots == 0,
        scenario.timing.tx_duration_slots == 1,
        preset == DemoPreset::Single ==> {
            &&& scenario.window.cw_max == 32
            &&& scenario.classes@.len() == 1
            &&& scenario.classes@[0].name@ == "standard"@
            &&& scenario.classes@[0].users == 1
            &&& scenario.classes@[0].cw_min == 8
        },
        preset == DemoPreset::Collision ==> {
            &&& scenario.window.cw_max == 31
            &&& scenario.classes@.len() == 1
            &&& scenario.classes@[0].name@ == "standard"@
            &&& scenario.classes@[0].users == 6
            &&& scenario.classes@[0].cw_min == 1
        },
        preset == DemoPreset::Mixed ==> {
            &&& scenario.window.cw_max == 63
            &&& scenario.classes@.len() == 2
            &&& scenario.classes@[0].name@ == "lower-cw"@
            &&& scenario.classes@[0].users == 5
            &&& scenario.classes@[0].cw_min == 4
            &&& scenario.classes@[1].name@ == "higher-cw"@
            &&& scenario.classes@[1].users == 5
            &&& scenario.classes@[1].cw_min == 16
        },
{
    let timing = TimingConfig {
        total_slots: slots,
        payload_bits: 12_000,
        difs_slots: 1,
        sifs_slots: 0,
        tx_duration_slots: 1,
        collision_penalty_slots: 0,
    };
    match preset {
        DemoPreset::Single => Scenario::standard(1, 8, seed, timing, 32),
        DemoPreset::Collision => Scenario::standard(6, 1, seed, timing, 31),
        DemoPreset::Mixed => Scenario::mixed(5, 5, 4, 16, seed, timing, 63),
    }
}

/// The name a preset is shown under.
pub fn preset_label(preset: DemoPreset) -> (label: &'static str)
    ensures
        preset == DemoPreset::Single ==> label@ == "single"@,
        preset == DemoPreset::Collision ==> label@ == "collision"@,
        preset == DemoPreset::Mixed ==> label@ == "mixed"@,
{
    match preset {
        DemoPreset::Single => "single",
        DemoPreset::Collision => "collision",
        DemoPreset::Mixed => "mixed",
    }
}

/// The short name a station phase is shown under.
pub fn phase_label(phase: StationPhase) -> (label: &'static str)
    ensures
        phase == StationPhase::WaitingForMedium ==> label@ == "waiting"@,
        phase == StationPhase::Defer ==> label@ == "defer"@,
        phase == StationPhase::BackoffCountdown ==> label@ == "backoff"@,
        phase == StationPhase::Transmitting ==> label@ == "tx"@,
        phase == StationPhase::AwaitingResult ==> label@ == "awaiting"@,
        phase == StationPhase::CollisionRecovery ==> label@ == "recovery"@,
{
    match phase {
        StationPhase::WaitingForMedium => "waiting",
        StationPhase::Defer => "defer",
        StationPhase::BackoffCountdown => "backoff",
        StationPhase::Transmitting => "tx",
        StationPhase::AwaitingResult => "awaiting",
        StationPhase::CollisionRecovery => "recovery",
    }
}

/// A key press the demo reacts to.
#[derive(Debug, Clone, Copy, PartialEq, Eq, Structural)]
pub enum DemoKey {
    Quit,
    TogglePause,
    Step,
    Restart,
    Faster,
    Slower,
    ToggleCaptions,
    Other,
}

/// Where the replay of a trace stands: which frame, whether paused, the tick length, and
/// whether teaching captions are shown.
#[derive(Debug, Clone, Copy, PartialEq, Eq, Structural)]
pub struct PlaybackState {
    pub frame_count: usize,
    pub frame_index: usize,
    pub paused: bool,
    pub tick_ms: u64,
    pub captions: bool,
}

impl PlaybackState {
    /// The frame index stays within a non-empty trace.
    pub open spec fn well_formed(self) -> bool {
        self.frame_count > 0 && self.frame_index < self.frame_count
    }

    pub open spec fn advance_spec(self) -> Self {
        if self.frame_index + 1 < self.frame_count {
            PlaybackState { frame_index: (self.frame_index + 1) as usize, ..self }
        } else {
            PlaybackState { paused: true, ..self }
        }
    }

    /// Playback of a non-empty trace, from its first frame, running, captions shown.
    pub fn new(frame_count: usize, tick_ms: u64) -> (state: Self)
        requires
            frame_count > 0,
        ensures
            state == (PlaybackState { frame_count, frame_index: 0, paused: false, tick_ms, captions: true }),
            state.well_formed(),
    {
        Self { frame_count, frame_index: 0, paused: false, tick_ms, captions: true }
    }

    /// Moves to the next frame; at the last frame, pauses instead.
    pub fn advance(&mut self)
        ensures
            *final(self) == old(self).advance_spec(),
    {
        if self.frame_index < usize::MAX && self.frame_index + 1 < self.frame_count {
            self.frame_index += 1;
        } else {
            self.paused = true;
        }
    }

    /// The state after a key: toggle pause, pause and step one frame, restart from the first
    /// frame running, halve the tick (not below 25 ms), or lengthen it by 25 ms (not above
    /// 2,000 ms), or show or hide the teaching captions; quitting and any other key leave it
    /// as it is.
    pub open spec fn key_effect(self, key: DemoKey) -> Self {
        match key {
            DemoKey::TogglePause => PlaybackState { paused: !self.paused, ..self },
            DemoKey::Step => PlaybackState { paused: true, ..self }.advance_spec(),
            DemoKey::Restart => PlaybackState { frame_index: 0, paused: false, ..self },
            DemoKey::Faster => PlaybackState {
                tick_ms: if self.tick_ms / 2 > 25 { self.tick_ms / 2 } else { 25 },
                ..self
            },
            DemoKey::Slower => PlaybackState {
                tick_ms: if self.tick_ms + 25 < 2_000 { (self.tick_ms + 25) as u64 } else { 2_000 },
                ..self
            },
            DemoKey::ToggleCaptions => PlaybackState { captions: !self.captions, ..self },
            DemoKey::Quit | DemoKey::Other => self,
        }
    }

    /// Reacts to a key as `key_effect` says; returns `true` for the quit key.
    pub fn handle_key(&mut self, key: DemoKey) -> (quit: bool)
        ensures
            quit == (key == DemoKey::Quit),
            *final(self) == old(self).key_effect(key),
    {
        match key {
            DemoKey::Quit => return true,
            DemoKey::TogglePause => self.paused = !self.paused,
            DemoKey::Step => {
                self.paused = true;
                self.advance();
            },
            DemoKey::Restart => {
                self.frame_index = 0;
                self.paused = false;
            },
            DemoKey::Faster => {
                let half = self.tick_ms / 2;
                self.tick_ms = if half > 25 { half } else { 25 };
            },
            DemoKey::Slower => {
                self.tick_ms = if self.tick_ms < 2_000 - 25 { self.tick_ms + 25 } else { 2_000 };
            },
            DemoKey::ToggleCaptions => self.captions = !self.captions,
            DemoKey::Other => {},
        }
        false
    }

    /// The frames the recent-event list shows: up to eight, ending at the current frame.
    pub fn recent_event_range(&self) -> (range: (usize, usize))
        ensures
            range.1 == self.frame_index,
            range.0 == if self.frame_index >= 7 { self.frame_index - 7 } else { 0 },
    {
        let start = if self.frame_index >= 7 { self.frame_index - 7 } else { 0 };
        (start, self.frame_index)
    }
}

/// Replaying never leaves a non-empty trace: every key and every tick keep the frame index
/// on a frame.
pub proof fn lemma_playback_stays_on_a_frame(state: PlaybackState, key: DemoKey)
    requires
        state.well_formed(),
    ensures
        state.advance_spec().well_formed(),
        state.key_effect(key).well_formed(),
{
}

/// Every demo preset runs with one DIFS slot, no SIFS and one-slot transmissions, so its
/// stations defer one idle slot before they count down and a success holds the medium for
/// no extra slot.
pub proof fn lemma_demo_timing(slots: u64)
    ensures
        demo_timing(slots).total_slots == slots,
        demo_timing(slots).difs_slots == 1,
        demo_timing(slots).sifs_slots == 0,
        demo_timing(slots).tx_duration_slots == 1,
{
}

} // verus!
