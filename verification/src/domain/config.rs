use vstd::prelude::*;

use crate::domain::scenario::{Scenario, StationClass, TimingConfig, WindowConfig};

verus! {

/// A user-facing station class: name, station count and minimum contention window.
#[derive(Debug, Clone, PartialEq, Eq)]
pub struct StationClassConfig {
    pub name: String,
    pub users: u32,
    pub cw_min: u32,
}

/// The named logical timing profiles a configuration can run with.
#[derive(Debug, Clone, Copy, PartialEq, Eq, Structural)]
pub enum TimingPreset {
    Baseline,
    ShortDefer,
    LongTransmission,
}

/// A user-facing simulation request; its timing is the one its preset names.
#[derive(Debug, Clone, PartialEq, Eq)]
pub struct SimulationConfig {
    pub total_slots: u64,
    pub payload_bits: u64,
    pub cw_max: u32,
    pub seed: u64,
    pub timing_preset: TimingPreset,
    pub classes: Vec<StationClassConfig>,
}

/// The settings that every class of a configuration shares.
#[derive(Debug, Clone, Copy, PartialEq, Eq, Structural)]
pub struct SimulationSettings {
    pub total_slots: u64,
    pub payload_bits: u64,
    pub cw_max: u32,
    pub seed: u64,
    pub timing_preset: TimingPreset,
}

/// The settings that a parameter sweep repeats for every point and trial.
#[derive(Debug, Clone, PartialEq, Eq, Structural)]
pub struct SweepParameters {
    pub total_slots: u64,
    pub payload_bits: u64,
    pub cw_max: u32,
    pub trials: u32,
    pub base_seed: u64,
    pub timing_preset: TimingPreset,
}

/// The number of stations that the configured classes hold together.
pub open spec fn config_users_sum(classes: Seq<StationClassConfig>) -> int
    decreases classes.len(),
{
    if classes.len() == 0 {
        0
    } else {
        config_users_sum(classes.drop_last()) + classes.last().users
    }
}

proof fn lemma_config_users_sum_prefix(classes: Seq<StationClassConfig>, i: int)
    requires
        0 <= i <= classes.len(),
    ensures
        0 <= config_users_sum(classes.take(i)) <= config_users_sum(classes),
    decreases classes.len() - i,
{
    if i == classes.len() {
        assert(classes.take(i) =~= classes);
        lemma_config_users_sum_nonneg(classes);
    } else {
        lemma_config_users_sum_nonneg(classes.take(i));
        assert(classes.take(i + 1).drop_last() =~= classes.take(i));
        lemma_config_users_sum_prefix(classes, i + 1);
    }
}

proof fn lemma_config_users_sum_nonneg(classes: Seq<StationClassConfig>)
    ensures
        config_users_sum(classes) >= 0,
    decreases classes.len(),
{
    if classes.len() > 0 {
        lemma_config_users_sum_nonneg(classes.drop_last());
    }
}

/// The timing a preset names: `baseline` holds one DIFS slot, no SIFS, one-slot
/// transmissions and four penalty slots after a collision; `short-defer` drops the DIFS;
/// `long-transmission` holds one DIFS slot, one SIFS slot, three-slot transmissions and
/// six penalty slots.
pub open spec fn preset_timing(preset: TimingPreset, total_slots: u64, payload_bits: u64) -> TimingConfig {
    match preset {
        TimingPreset::Baseline => TimingConfig {
            total_slots,
            payload_bits,
            difs_slots: 1,
            sifs_slots: 0,
            tx_duration_slots: 1,
            collision_penalty_slots: 4,
        },
        TimingPreset::ShortDefer => TimingConfig {
            total_slots,
            payload_bits,
            difs_slots: 0,
            sifs_slots: 0,
            tx_duration_slots: 1,
            collision_penalty_slots: 4,
        },
        TimingPreset::LongTransmission => TimingConfig {
            total_slots,
            payload_bits,
            difs_slots: 1,
            sifs_slots: 1,
            tx_duration_slots: 3,
            collision_penalty_slots: 6,
        },
    }
}

/// The timing `preset` names for a run of `total_slots` slots with `payload_bits` per
/// success.
pub fn preset_timing_config(preset: TimingPreset, total_slots: u64, payload_bits: u64) -> (timing: TimingConfig)
    ensures
        timing == preset_timing(preset, total_slots, payload_bits),
{
    match preset {
        TimingPreset::Baseline => TimingConfig {
            total_slots,
            payload_bits,
            difs_slots: 1,
            sifs_slots: 0,
            tx_duration_slots: 1,
            collision_penalty_slots: 4,
        },
        TimingPreset::ShortDefer => TimingConfig {
            total_slots,
            payload_bits,
            difs_slots: 0,
            sifs_slots: 0,
            tx_duration_slots: 1,
            collision_penalty_slots: 4,
        },
        TimingPreset::LongTransmission => TimingConfig {
            total_slots,
            payload_bits,
            difs_slots: 1,
            sifs_slots: 1,
            tx_duration_slots: 3,
            collision_penalty_slots: 6,
        },
    }
}

impl SimulationConfig {
    pub open spec fn users_spec(&self) -> int {
        config_users_sum(self.classes@)
    }

    /// One class named "standard".
    pub fn standard(users: u32, cw_min: u32, settings: SimulationSettings) -> (config: Self)
        ensures
            config.total_slots == settings.total_slots,
            config.payload_bits == settings.payload_bits,
            config.cw_max == settings.cw_max,
            config.seed == settings.seed,
            config.timing_preset == settings.timing_preset,
            config.classes@.len() == 1,
            config.classes@[0].name@ == "standard"@,
            config.classes@[0].users == users,
            config.classes@[0].cw_min == cw_min,
    {
        Self {
            total_slots: settings.total_slots,
            payload_bits: settings.payload_bits,
            cw_max: settings.cw_max,
            seed: settings.seed,
            timing_preset: settings.timing_preset,
            classes: vec![StationClassConfig { name: "standard".to_owned(), users, cw_min }],
        }
    }

    /// Two classes, "lower-cw" then "higher-cw".
    pub fn mixed(
        lower_users: u32,
        higher_users: u32,
        lower_cw_min: u32,
        higher_cw_min: u32,
        settings: SimulationSettings,
    ) -> (config: Self)
        ensures
            config.total_slots == settings.total_slots,
            config.payload_bits == settings.payload_bits,
            config.cw_max == settings.cw_max,
            config.seed == settings.seed,
            config.timing_preset == settings.timing_preset,
            config.classes@.len() == 2,
            config.classes@[0].name@ == "lower-cw"@,
            config.classes@[0].users == lower_users,
            config.classes@[0].cw_min == lower_cw_min,
            config.classes@[1].name@ == "higher-cw"@,
            config.classes@[1].users == higher_users,
            config.classes@[1].cw_min == higher_cw_min,
    {
        Self {
            total_slots: settings.total_slots,
            payload_bits: settings.payload_bits,
            cw_max: settings.cw_max,
            seed: settings.seed,
            timing_preset: settings.timing_preset,
            classes: vec![
                StationClassConfig {
                    name: "lower-cw".to_owned(),
                    users: lower_users,
                    cw_min: lower_cw_min,
                },
                StationClassConfig {
                    name: "higher-cw".to_owned(),
                    users: higher_users,
                    cw_min: higher_cw_min,
                },
            ],
        }
    }

    /// The number of stations over all classes.
    pub fn total_users(&self) -> (total: u32)
        requires
            self.users_spec() <= u32::MAX,
        ensures
            total == self.users_spec(),
    {
        let mut total: u32 = 0;
        for i in 0..self.classes.len()
            invariant
                total == config_users_sum(self.classes@.take(i as int)),
                config_users_sum(self.classes@) <= u32::MAX,
        {
            proof {
                assert(self.classes@.take(i + 1).drop_last() =~= self.classes@.take(i as int));
                lemma_config_users_sum_prefix(self.classes@, i + 1);
            }
            total = total + self.classes[i].users;
        }
        proof {
            assert(self.classes@.take(self.classes@.len() as int) =~= self.classes@);
        }
        total
    }

    /// The scenario this configuration describes: same seed, cap and classes, with the
    /// timing its preset names.
    pub fn to_scenario(&self) -> (scenario: Scenario)
        ensures
            scenario.seed == self.seed,
            scenario.timing == preset_timing(self.timing_preset, self.total_slots, self.payload_bits),
            scenario.window.cw_max == self.cw_max,
            scenario.classes@.len() == self.classes@.len(),
            forall|i: int|
                0 <= i < self.classes@.len() ==> {
                    &&& (#[trigger] scenario.classes@[i]).name@ == self.classes@[i].name@
                    &&& scenario.classes@[i].users == self.classes@[i].users
                    &&& scenario.classes@[i].cw_min == self.classes@[i].cw_min
                },
    {
        let mut classes: Vec<StationClass> = Vec::new();
        for i in 0..self.classes.len()
            invariant
                classes@.len() == i,
                forall|j: int|
                    0 <= j < i ==> {
                        &&& (#[trigger] classes@[j]).name@ == self.classes@[j].name@
                        &&& classes@[j].users == self.classes@[j].users
                        &&& classes@[j].cw_min == self.classes@[j].cw_min
                    },
        {
            let class = &self.classes[i];
            classes.push(
                StationClass { name: class.name.clone(), users: class.users, cw_min: class.cw_min },
            );
        }
        Scenario {
            seed: self.seed,
            timing: preset_timing_config(self.timing_preset, self.total_slots, self.payload_bits),
            window: WindowConfig { cw_max: self.cw_max },
            classes,
        }
    }
}

impl Default for SweepParameters {
    /// 20,000 slots of 12,000-bit payloads, a cap of 1,024, five trials from seed 7, the
    /// baseline timing.
    fn default() -> (params: Self)
        ensures
            params == (SweepParameters {
                total_slots: 20_000,
                payload_bits: 12_000,
                cw_max: 1_024,
                trials: 5,
                base_seed: 7,
                timing_preset: TimingPreset::Baseline,
            }),
    {
        Self {
            total_slots: 20_000,
            payload_bits: 12_000,
            cw_max: 1_024,
            trials: 5,
            base_seed: 7,
            timing_preset: TimingPreset::Baseline,
        }
    }
}

} // verus!
