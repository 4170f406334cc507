use vstd::prelude::*;

verus! {

/// A group of stations that share a name and a minimum contention window.
#[derive(Debug, Clone, PartialEq, Eq)]
pub struct StationClass {
    pub name: String,
    pub users: u32,
    pub cw_min: u32,
}

/// Slot counts of one run: its length, the payload per success, and the logical timing.
#[derive(Debug, Clone, Copy, PartialEq, Eq, Structural)]
pub struct TimingConfig {
    pub total_slots: u64,
    pub payload_bits: u64,
    pub difs_slots: u32,
    pub sifs_slots: u32,
    pub tx_duration_slots: u32,
    pub collision_penalty_slots: u32,
}

/// The contention-window cap shared by every station.
#[derive(Debug, Clone, Copy, PartialEq, Eq, Structural)]
pub struct WindowConfig {
    pub cw_max: u32,
}

/// Everything one simulation run is made of.
#[derive(Debug, Clone, PartialEq, Eq)]
pub struct Scenario {
    pub seed: u64,
    pub timing: TimingConfig,
    pub window: WindowConfig,
    pub classes: Vec<StationClass>,
}

/// The number of stations that the classes hold together.
pub open spec fn users_sum(classes: Seq<StationClass>) -> int
    decreases classes.len(),
{
    if classes.len() == 0 {
        0
    } else {
        users_sum(classes.drop_last()) + classes.last().users
    }
}

/// Adding one more class adds its users.
pub proof fn lemma_users_sum_take(classes: Seq<StationClass>, i: int)
    requires
        0 <= i < classes.len(),
    ensures
        users_sum(classes.take(i + 1)) == users_sum(classes.take(i)) + classes[i].users,
{
    assert(classes.take(i + 1).drop_last() =~= classes.take(i));
}

/// A prefix of the classes never holds more users than all of them.
pub proof fn lemma_users_sum_prefix(classes: Seq<StationClass>, i: int)
    requires
        0 <= i <= classes.len(),
    ensures
        0 <= users_sum(classes.take(i)) <= users_sum(classes),
    decreases classes.len() - i,
{
    if i == classes.len() {
        assert(classes.take(i) =~= classes);
        lemma_users_sum_nonneg(classes);
    } else {
        lemma_users_sum_nonneg(classes.take(i));
        lemma_users_sum_take(classes, i);
        lemma_users_sum_prefix(classes, i + 1);
    }
}

pub proof fn lemma_users_sum_nonneg(classes: Seq<StationClass>)
    ensures
        users_sum(classes) >= 0,
    decreases classes.len(),
{
    if classes.len() > 0 {
        lemma_users_sum_nonneg(classes.drop_last());
    }
}

impl Scenario {
    pub open spec fn users_spec(&self) -> int {
        users_sum(self.classes@)
    }

    /// One class named "standard".
    pub fn standard(users: u32, cw_min: u32, seed: u64, timing: TimingConfig, cw_max: u32) -> (
        scenario: Self)
        ensures
            scenario.seed == seed,
            scenario.timing == timing,
            scenario.window.cw_max == cw_max,
            scenario.classes@.len() == 1,
            scenario.classes@[0].name@ == "standard"@,
            scenario.classes@[0].users == users,
            scenario.classes@[0].cw_min == cw_min,
    {
        Self {
            seed,
            timing,
            window: WindowConfig { cw_max },
            classes: vec![StationClass { name: "standard".to_owned(), users, cw_min }],
        }
    }

    /// Two classes, "lower-cw" then "higher-cw".
    pub fn mixed(
        lower_users: u32,
        higher_users: u32,
        lower_cw_min: u32,
        higher_cw_min: u32,
        seed: u64,
        timing: TimingConfig,
        cw_max: u32,
    ) -> (scenario: Self)
        ensures
            scenario.seed == seed,
            scenario.timing == timing,
            scenario.window.cw_max == cw_max,
            scenario.classes@.len() == 2,
            scenario.classes@[0].name@ == "lower-cw"@,
            scenario.classes@[0].users == lower_users,
            scenario.classes@[0].cw_min == lower_cw_min,
            scenario.classes@[1].name@ == "higher-cw"@,
            scenario.classes@[1].users == higher_users,
            scenario.classes@[1].cw_min == higher_cw_min,
    {
        Self {
            seed,
            timing,
            window: WindowConfig { cw_max },
            classes: vec![
                StationClass { name: "lower-cw".to_owned(), users: lower_users, cw_min: lower_cw_min },
                StationClass {
                    name: "higher-cw".to_owned(),
                    users: higher_users,
                    cw_min: higher_cw_min,
                },
            ],
        }
    }

    /// The number of stations over all classes.
    pub fn total_users(&self) -> (total: u32)
        requires
            self.users_spec() <= u32::MAX,
        ensures
            total == self.users_spec(),
    {
        let mut total: u32 = 0;
        for i in 0..self.classes.len()
            invariant
                total == users_sum(self.classes@.take(i as int)),
                users_sum(self.classes@) <= u32::MAX,
        {
            proof {
                lemma_users_sum_take(self.classes@, i as int);
                lemma_users_sum_prefix(self.classes@, i + 1);
            }
            total = total + self.classes[i].users;
        }
        proof {
            assert(self.classes@.take(self.classes@.len() as int) =~= self.classes@);
        }
        total
    }
}

} // verus!
