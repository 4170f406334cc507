use rand::rngs::StdRng;
use vstd::prelude::*;

use crate::domain::config::{config_users_sum, SimulationConfig, StationClassConfig};
use crate::domain::report::ClassReport;
use crate::error::SimError;
use crate::sim::dcf::invariants::{lemma_total_bounded, lemma_total_congruent, lemma_total_one_changed};
use crate::sim::dcf::metrics::{
    field_total, field_value, group_by_class, groups_match, groups_total, lemma_classes_add_up, lemma_station_count,
    lemma_total_nonneg, sum_tallies, tallies_fit, StationTally, TallyField,
};
use crate::sim::dcf::rng::{sample_below, seeded_rng};

use super::metrics::{AggregateMetrics, ClassMetrics, SimulationResult};
use super::model::{StationState, TransmissionOutcome};

pub use crate::sim::runner::validate_range_step;

verus! {

/// The state of a run of the plain slotted model between two slots.
pub struct SlottedState {
    pub stations: Seq<StationState>,
    pub collision_events: u64,
    pub slot: u64,
}

/// The indices, in increasing order, of the stations among the first `k` whose counter is zero.
pub open spec fn zero_indices(stations: Seq<StationState>, k: int) -> Seq<usize>
    decreases k,
{
    if k <= 0 {
        Seq::empty()
    } else {
        let before = zero_indices(stations, k - 1);
        if stations[k - 1].backoff == 0 {
            before.push((k - 1) as usize)
        } else {
            before
        }
    }
}

pub open spec fn slotted_age(s: StationState) -> StationState {
    StationState { packet_age_slots: (s.packet_age_slots + 1) as u64, ..s }
}

pub open spec fn slotted_decrement(s: StationState) -> StationState {
    if s.backoff > 0 {
        StationState { backoff: (s.backoff - 1) as u32, ..s }
    } else {
        s
    }
}

/// `2 * current`, saturating at `u32::MAX`, then capped at `cw_max`.
pub open spec fn doubled_cw(current: u32, cw_max: u32) -> u32 {
    let doubled: int = if 2 * current > u32::MAX { u32::MAX as int } else { 2 * current };
    if doubled < cw_max { doubled as u32 } else { cw_max }
}

pub open spec fn slotted_success(s: StationState, draw: u32) -> StationState {
    StationState {
        successful_packets: (s.successful_packets + 1) as u64,
        total_delay_slots: (s.total_delay_slots + s.packet_age_slots) as u64,
        packet_age_slots: 0,
        current_cw: s.cw_min,
        backoff: draw,
        ..s
    }
}

pub open spec fn slotted_collision(s: StationState, draw: u32, cw_max: u32) -> StationState {
    StationState {
        collision_attempts: (s.collision_attempts + 1) as u64,
        current_cw: doubled_cw(s.current_cw, cw_max),
        backoff: draw,
        ..s
    }
}

/// Counters the generator may hand out in the slot that starts from `s`: one below the
/// winner's minimum window on a success, one per sender below its doubled window on a
/// collision, none otherwise.
pub open spec fn slotted_draws_valid(cw_max: u32, s: SlottedState, draws: Seq<u32>) -> bool {
    let st = s.stations;
    let ids = zero_indices(st, st.len() as int);
    if ids.len() == 0 {
        draws.len() == 0
    } else if ids.len() == 1 {
        draws.len() == 1 && draws[0] < st[ids[0] as int].cw_min
    } else {
        &&& draws.len() == ids.len()
        &&& forall|i: int|
            0 <= i < st.len() && (#[trigger] st[i]).backoff == 0 ==> draws[zero_indices(st, i).len() as int]
                < doubled_cw(st[i].current_cw, cw_max)
    }
}

/// One slot of the plain slotted model: every packet ages; with no zero counter every
/// counter counts down; one zero counter sends successfully; several collide.
pub open spec fn slotted_next(cw_max: u32, s: SlottedState, draws: Seq<u32>) -> SlottedState {
    let st = s.stations;
    let ids = zero_indices(st, st.len() as int);
    let slot = (s.slot + 1) as u64;
    if ids.len() == 0 {
        SlottedState {
            stations: Seq::new(st.len(), |i: int| slotted_decrement(slotted_age(st[i]))),
            collision_events: s.collision_events,
            slot,
        }
    } else if ids.len() == 1 {
        SlottedState {
            stations: Seq::new(
                st.len(),
                |i: int|
                    if i == ids[0] {
                        slotted_success(slotted_age(st[i]), draws[0])
                    } else {
                        slotted_age(st[i])
                    },
            ),
            collision_events: s.collision_events,
            slot,
        }
    } else {
        SlottedState {
            stations: Seq::new(
                st.len(),
                |i: int|
                    if st[i].backoff == 0 {
                        slotted_collision(
                            slotted_age(st[i]),
                            draws[zero_indices(st, i).len() as int],
                            cw_max,
                        )
                    } else {
                        slotted_age(st[i])
                    },
            ),
            collision_events: (s.collision_events + 1) as u64,
            slot,
        }
    }
}

pub open spec fn slotted_step_ok(cw_max: u32, pre: SlottedState, post: SlottedState) -> bool {
    exists|draws: Seq<u32>| slotted_draws_valid(cw_max, pre, draws) && post == slotted_next(cw_max, pre, draws)
}

/// One entry per station: the class of each, in class order.
pub open spec fn config_roster(classes: Seq<StationClassConfig>) -> Seq<StationClassConfig>
    decreases classes.len(),
{
    if classes.len() == 0 {
        Seq::empty()
    } else {
        config_roster(classes.drop_last()) + Seq::new(
            classes.last().users as nat,
            |i: int| classes.last(),
        )
    }
}

/// The state a run of `config` starts in: each station of its class, with its window at
/// the class minimum and a counter drawn below it.
pub open spec fn slotted_initial(config: SimulationConfig, s: SlottedState) -> bool {
    let r = config_roster(config.classes@);
    &&& s.collision_events == 0
    &&& s.slot == 0
    &&& s.stations.len() == r.len()
    &&& forall|k: int|
        0 <= k < r.len() ==> {
            let st = #[trigger] s.stations[k];
            &&& st.id == k
            &&& st.class_name == r[k].name
            &&& st.cw_min == r[k].cw_min
            &&& st.current_cw == r[k].cw_min
            &&& st.backoff < r[k].cw_min
            &&& st.packet_age_slots == 0
            &&& st.successful_packets == 0
            &&& st.collision_attempts == 0
            &&& st.total_delay_slots == 0
        }
}

/// `states` is a complete run of `config`.
pub open spec fn slotted_chain(config: SimulationConfig, states: Seq<SlottedState>) -> bool {
    &&& states.len() == config.total_slots + 1
    &&& slotted_initial(config, states[0])
    &&& forall|k: int|
        0 <= k < config.total_slots ==> #[trigger] slotted_step_ok(config.cw_max, states[k], states[k + 1])
}

pub open spec fn slotted_tally(s: StationState) -> StationTally {
    StationTally {
        class_name: s.class_name,
        successful_packets: s.successful_packets,
        collision_attempts: s.collision_attempts,
        total_delay_slots: s.total_delay_slots,
    }
}

pub open spec fn slotted_tallies(stations: Seq<StationState>) -> Seq<StationTally> {
    Seq::new(stations.len(), |i: int| slotted_tally(stations[i]))
}

pub open spec fn metrics_as_report(m: ClassMetrics) -> ClassReport {
    ClassReport {
        class_name: m.class_name,
        users: m.users,
        successful_packets: m.successful_packets,
        collision_attempts: m.collision_attempts,
        total_delay_slots: m.total_delay_slots,
    }
}

pub open spec fn metrics_as_reports(ms: Seq<ClassMetrics>) -> Seq<ClassReport> {
    Seq::new(ms.len(), |i: int| metrics_as_report(ms[i]))
}

/// `result` reports a run of `config` that ended in `s`.
pub open spec fn result_matches(result: SimulationResult, config: SimulationConfig, s: SlottedState) -> bool {
    let ts = slotted_tallies(s.stations);
    &&& result.total_slots == config.total_slots
    &&& result.payload_bits == config.payload_bits
    &&& result.aggregate.total_successful_packets == field_total(ts, TallyField::Successes)
    &&& result.aggregate.total_delay_slots == field_total(ts, TallyField::Delay)
    &&& result.aggregate.collision_events == s.collision_events
    &&& groups_match(metrics_as_reports(result.per_class@), ts)
}

pub open spec fn config_class_error(classes: Seq<StationClassConfig>, cw_max: u32) -> Option<SimError>
    decreases classes.len(),
{
    if classes.len() == 0 {
        None
    } else if classes[0].users == 0 {
        Some(SimError::EmptyClass)
    } else if classes[0].cw_min == 0 {
        Some(SimError::ZeroCwMin)
    } else if classes[0].cw_min > cw_max {
        Some(SimError::CwMinAboveCwMax)
    } else {
        config_class_error(classes.drop_first(), cw_max)
    }
}

/// The first problem of a configuration, in check order.
pub open spec fn config_error(config: SimulationConfig) -> Option<SimError> {
    if config.total_slots == 0 {
        Some(SimError::ZeroTotalSlots)
    } else if config.payload_bits == 0 {
        Some(SimError::ZeroPayloadBits)
    } else if config.classes@.len() == 0 {
        Some(SimError::NoClasses)
    } else {
        config_class_error(config.classes@, config.cw_max)
    }
}

/// Every completed run of the plain slotted model sends at most one packet or collision per
/// slot, and a lone station never collides.
pub open spec fn slotted_laws(result: SimulationResult, config: SimulationConfig) -> bool {
    &&& result.aggregate.total_successful_packets + result.aggregate.collision_events <= config.total_slots
    &&& config.users_spec() == 1 ==> result.aggregate.collision_events == 0
}

/// What `simulate` may return for `config`.
pub open spec fn slotted_outcome(result: Result<SimulationResult, SimError>, config: SimulationConfig) -> bool {
    match result {
        Err(e) => config_error(config) == Some(e),
        Ok(r) => {
            &&& config_error(config) is None
            &&& exists|states: Seq<SlottedState>|
                slotted_chain(config, states) && #[trigger] result_matches(r, config, states.last())
            &&& slotted_laws(r, config)
        },
    }
}

/// A slotted result's classes add up to its totals: their station counts to the number of
/// stations, their successes and delays to the aggregate successes and delay.
pub proof fn lemma_slotted_classes_add_up(result: SimulationResult, config: SimulationConfig, s: SlottedState)
    requires
        result_matches(result, config, s),
    ensures
        groups_total(metrics_as_reports(result.per_class@), TallyField::Stations) == s.stations.len(),
        groups_total(metrics_as_reports(result.per_class@), TallyField::Successes)
            == result.aggregate.total_successful_packets,
        groups_total(metrics_as_reports(result.per_class@), TallyField::Delay) == result.aggregate.total_delay_slots,
{
    let ts = slotted_tallies(s.stations);
    lemma_classes_add_up(metrics_as_reports(result.per_class@), ts, TallyField::Stations);
    lemma_classes_add_up(metrics_as_reports(result.per_class@), ts, TallyField::Successes);
    lemma_classes_add_up(metrics_as_reports(result.per_class@), ts, TallyField::Delay);
    lemma_station_count(ts);
}

proof fn lemma_zero_indices_single(st: Seq<StationState>, k: int, w: int)
    requires
        0 <= k <= st.len(),
        0 <= w < st.len(),
        st.len() <= usize::MAX,
        st[w].backoff == 0,
        forall|i: int| 0 <= i < st.len() && i != w ==> (#[trigger] st[i]).backoff != 0,
    ensures
        zero_indices(st, k) == if w < k {
            seq![w as usize]
        } else {
            Seq::<usize>::empty()
        },
    decreases k,
{
    if k > 0 {
        lemma_zero_indices_single(st, k - 1, w);
        if w < k - 1 {
            assert(st[k - 1].backoff != 0);
        } else if w == k - 1 {
            assert(Seq::<usize>::empty().push(w as usize) =~= seq![w as usize]);
        } else {
            assert(st[k - 1].backoff != 0);
        }
    }
}

/// A station that sends alone in a slot delivers its packet and restarts: it leaves the
/// slot with its window back at its class minimum, a fresh packet and a counter drawn below
/// that minimum, and no collision is counted.
pub proof fn lemma_slotted_success_resets_window(cw_max: u32, pre: SlottedState, post: SlottedState, w: int)
    requires
        slotted_step_ok(cw_max, pre, post),
        0 <= w < pre.stations.len(),
        pre.stations.len() <= usize::MAX,
        pre.stations[w].backoff == 0,
        forall|i: int| 0 <= i < pre.stations.len() && i != w ==> (#[trigger] pre.stations[i]).backoff != 0,
    ensures
        post.stations[w].current_cw == pre.stations[w].cw_min,
        post.stations[w].cw_min == pre.stations[w].cw_min,
        post.stations[w].packet_age_slots == 0,
        post.stations[w].backoff < pre.stations[w].cw_min,
        post.collision_events == pre.collision_events,
{
    let draws = choose|draws: Seq<u32>| slotted_draws_valid(cw_max, pre, draws) && post == slotted_next(cw_max, pre, draws);
    lemma_zero_indices_single(pre.stations, pre.stations.len() as int, w);
    let ids = zero_indices(pre.stations, pre.stations.len() as int);
    assert(ids.len() == 1 && ids[0] == w);
}

/// In the plain slotted model a collision doubles the window, capped: `2 * current` when
/// that fits under the cap, the cap otherwise.
pub proof fn lemma_doubling_rule(current: u32, cw_max: u32)
    ensures
        doubled_cw(current, cw_max) <= cw_max,
        2 * current <= cw_max ==> doubled_cw(current, cw_max) == 2 * current,
        2 * current > cw_max ==> doubled_cw(current, cw_max) == cw_max,
{
}

proof fn lemma_zero_indices_none(st: Seq<StationState>, k: int)
    requires
        0 <= k <= st.len(),
        forall|i: int| 0 <= i < st.len() ==> (#[trigger] st[i]).backoff != 0,
    ensures
        zero_indices(st, k).len() == 0,
    decreases k,
{
    if k > 0 {
        lemma_zero_indices_none(st, k - 1);
    }
}

/// A slot where no counter is at zero is idle in the plain slotted model: every counter
/// counts down by one, every packet grows one slot older, windows stay, and nothing is
/// delivered or counted as a collision.
pub proof fn lemma_slotted_idle_slot(cw_max: u32, pre: SlottedState, post: SlottedState, i: int)
    requires
        slotted_step_ok(cw_max, pre, post),
        0 <= i < pre.stations.len(),
        pre.stations[i].packet_age_slots < u64::MAX,
        forall|j: int| 0 <= j < pre.stations.len() ==> (#[trigger] pre.stations[j]).backoff != 0,
    ensures
        post.stations[i].backoff == pre.stations[i].backoff - 1,
        post.stations[i].packet_age_slots == pre.stations[i].packet_age_slots + 1,
        post.stations[i].current_cw == pre.stations[i].current_cw,
        post.stations[i].successful_packets == pre.stations[i].successful_packets,
        post.collision_events == pre.collision_events,
{
    let draws = choose|draws: Seq<u32>| slotted_draws_valid(cw_max, pre, draws) && post == slotted_next(cw_max, pre, draws);
    lemma_zero_indices_none(pre.stations, pre.stations.len() as int);
}

/// What a run keeps from slot to slot.
pub open spec fn slotted_invariant(config: SimulationConfig, s: SlottedState) -> bool {
    let r = config_roster(config.classes@);
    &&& s.slot <= config.total_slots
    &&& s.stations.len() == r.len()
    &&& forall|i: int|
        0 <= i < s.stations.len() ==> {
            let st = #[trigger] s.stations[i];
            &&& st.class_name == r[i].name
            &&& st.cw_min == r[i].cw_min
            &&& 1 <= st.cw_min <= st.current_cw <= config.cw_max
            &&& st.backoff < st.current_cw
            &&& st.total_delay_slots + st.packet_age_slots == s.slot
            &&& st.successful_packets + st.collision_attempts <= s.slot
        }
    &&& field_total(slotted_tallies(s.stations), TallyField::Successes) + s.collision_events <= s.slot
    &&& (s.stations.len() <= 1 ==> s.collision_events == 0)
}

pub proof fn lemma_zero_indices(stations: Seq<StationState>, k: int)
    requires
        0 <= k <= stations.len(),
        stations.len() <= usize::MAX,
    ensures
        zero_indices(stations, k).len() <= k,
        forall|j: int|
            0 <= j < zero_indices(stations, k).len() ==> {
                let idx = #[trigger] zero_indices(stations, k)[j];
                &&& 0 <= idx < k
                &&& stations[idx as int].backoff == 0
            },
        forall|i: int|
            0 <= i < k && (#[trigger] stations[i]).backoff == 0 ==> zero_indices(stations, i).len()
                < zero_indices(stations, k).len(),
        forall|i: int|
            0 <= i <= k ==> #[trigger] zero_indices(stations, i).len() <= zero_indices(stations, k).len(),
        zero_indices(stations, k).len() == 0 ==> forall|i: int|
            0 <= i < k ==> (#[trigger] stations[i]).backoff != 0,
    decreases k,
{
    if k > 0 {
        lemma_zero_indices(stations, k - 1);
        let prev = zero_indices(stations, k - 1);
        let cur = zero_indices(stations, k);
        assert forall|j: int| 0 <= j < cur.len() implies {
            let idx = #[trigger] cur[j];
            &&& 0 <= idx < k
            &&& stations[idx as int].backoff == 0
        } by {
            if j < prev.len() {
                assert(cur[j] == prev[j]);
            }
        }
    }
}

proof fn lemma_success_congruent(a: Seq<StationState>, b: Seq<StationState>)
    requires
        a.len() == b.len(),
        forall|i: int| 0 <= i < a.len() ==> (#[trigger] a[i]).successful_packets == b[i].successful_packets,
    ensures
        field_total(slotted_tallies(a), TallyField::Successes) == field_total(
            slotted_tallies(b),
            TallyField::Successes,
        ),
{
    let ta = slotted_tallies(a);
    let tb = slotted_tallies(b);
    assert forall|i: int| 0 <= i < ta.len() implies field_value(#[trigger] ta[i], TallyField::Successes)
        == field_value(tb[i], TallyField::Successes) by {
        assert(a[i].successful_packets == b[i].successful_packets);
    }
    lemma_total_congruent(ta, tb, TallyField::Successes);
}

/// Every slot of the plain slotted model keeps its invariant: windows stay within
/// `[cw_min, cw_max]` with `cw_min >= 1`, counters stay below the current window, delay
/// plus age equals the elapsed slots, one success or collision per slot at most, and a
/// lone station never collides.
pub proof fn lemma_slotted_step(config: SimulationConfig, s: SlottedState, draws: Seq<u32>)
    requires
        slotted_invariant(config, s),
        s.slot < config.total_slots,
        s.stations.len() <= usize::MAX,
        slotted_draws_valid(config.cw_max, s, draws),
    ensures
        slotted_invariant(config, slotted_next(config.cw_max, s, draws)),
{
    let st = s.stations;
    let r = config_roster(config.classes@);
    let post = slotted_next(config.cw_max, s, draws);
    lemma_zero_indices(st, st.len() as int);
    let ids = zero_indices(st, st.len() as int);
    lemma_total_nonneg(slotted_tallies(st), TallyField::Successes);
    if ids.len() == 0 {
        lemma_success_congruent(st, post.stations);
    } else if ids.len() == 1 {
        let id = ids[0] as int;
        let ta = slotted_tallies(st);
        let tb = slotted_tallies(post.stations);
        assert forall|i: int| 0 <= i < ta.len() && i != id implies field_value(
            #[trigger] ta[i],
            TallyField::Successes,
        ) == field_value(tb[i], TallyField::Successes) by {}
        lemma_total_one_changed(ta, tb, id, TallyField::Successes);
    } else {
        lemma_success_congruent(st, post.stations);
    }
}

/// The initial state satisfies the invariant when every class has a positive minimum
/// within the cap.
pub proof fn lemma_slotted_initial(config: SimulationConfig, s: SlottedState)
    requires
        slotted_initial(config, s),
        forall|k: int|
            0 <= k < config_roster(config.classes@).len() ==> 1 <= (#[trigger] config_roster(
                config.classes@,
            )[k]).cw_min <= config.cw_max,
    ensures
        slotted_invariant(config, s),
{
    let r = config_roster(config.classes@);
    lemma_total_bounded(slotted_tallies(s.stations), TallyField::Successes, 0);
    lemma_total_nonneg(slotted_tallies(s.stations), TallyField::Successes);
    assert forall|i: int| 0 <= i < s.stations.len() implies {
        let st = #[trigger] s.stations[i];
        &&& st.class_name == r[i].name
        &&& st.cw_min == r[i].cw_min
        &&& 1 <= st.cw_min <= st.current_cw <= config.cw_max
        &&& st.backoff < st.current_cw
        &&& st.total_delay_slots + st.packet_age_slots == s.slot
        &&& st.successful_packets + st.collision_attempts <= s.slot
    } by {
        assert(1 <= r[i].cw_min <= config.cw_max);
    }
}

proof fn lemma_config_roster_take(classes: Seq<StationClassConfig>, c: int)
    requires
        0 <= c < classes.len(),
    ensures
        config_roster(classes.take(c + 1)) == config_roster(classes.take(c)) + Seq::new(
            classes[c].users as nat,
            |i: int| classes[c],
        ),
{
    assert(classes.take(c + 1).drop_last() =~= classes.take(c));
    assert(classes.take(c + 1).last() == classes[c]);
}

proof fn lemma_config_roster_len(classes: Seq<StationClassConfig>)
    ensures
        config_roster(classes).len() == config_users_sum(classes),
    decreases classes.len(),
{
    if classes.len() > 0 {
        lemma_config_roster_len(classes.drop_last());
    }
}

proof fn lemma_config_roster_prefix_len(classes: Seq<StationClassConfig>, c: int)
    requires
        0 <= c <= classes.len(),
    ensures
        config_roster(classes.take(c)).len() <= config_roster(classes).len(),
    decreases classes.len() - c,
{
    if c < classes.len() {
        lemma_config_roster_take(classes, c);
        lemma_config_roster_prefix_len(classes, c + 1);
    } else {
        assert(classes.take(c) =~= classes);
    }
}

proof fn lemma_config_roster_valid(classes: Seq<StationClassConfig>, cw_max: u32)
    requires
        forall|j: int| 0 <= j < classes.len() ==> 1 <= (#[trigger] classes[j]).cw_min <= cw_max,
    ensures
        forall|k: int|
            0 <= k < config_roster(classes).len() ==> 1 <= (#[trigger] config_roster(classes)[k]).cw_min
                <= cw_max,
    decreases classes.len(),
{
    if classes.len() > 0 {
        let init = classes.drop_last();
        assert forall|j: int| 0 <= j < init.len() implies 1 <= (#[trigger] init[j]).cw_min <= cw_max by {
            assert(init[j] == classes[j]);
        }
        lemma_config_roster_valid(init, cw_max);
        let r = config_roster(classes);
        let ri = config_roster(init);
        assert forall|k: int| 0 <= k < r.len() implies 1 <= (#[trigger] r[k]).cw_min <= cw_max by {
            if k < ri.len() {
                assert(r[k] == ri[k]);
            } else {
                assert(r[k] == classes.last());
            }
        }
    }
}

/// Rejects a configuration that cannot run: no slots, no payload, no class, an empty
/// class, a zero class minimum, or a class minimum above the cap.
fn validate_config(config: &SimulationConfig) -> (result: Result<(), SimError>)
    ensures
        match result {
            Ok(()) => config_error(*config) is None,
            Err(e) => config_error(*config) == Some(e),
        },
        result is Ok ==> forall|j: int|
            0 <= j < config.classes@.len() ==> (#[trigger] config.classes@[j]).users > 0 && 1
                <= config.classes@[j].cw_min <= config.cw_max,
{
    if config.total_slots == 0 {
        return Err(SimError::ZeroTotalSlots);
    }
    if config.payload_bits == 0 {
        return Err(SimError::ZeroPayloadBits);
    }
    if config.classes.len() == 0 {
        return Err(SimError::NoClasses);
    }
    let ghost classes = config.classes@;
    proof {
        assert(classes.skip(0) =~= classes);
    }
    for i in 0..config.classes.len()
        invariant
            classes == config.classes@,
            config_error(*config) == config_class_error(classes, config.cw_max),
            config_class_error(classes, config.cw_max) == config_class_error(classes.skip(i as int), config.cw_max),
            forall|j: int|
                0 <= j < i ==> (#[trigger] classes[j]).users > 0 && 1 <= classes[j].cw_min <= config.cw_max,
    {
        let class = &config.classes[i];
        proof {
            assert(classes.skip(i as int)[0] == classes[i as int]);
            assert(classes.skip(i as int).drop_first() =~= classes.skip(i + 1));
        }
        if class.users == 0 {
            return Err(SimError::EmptyClass);
        }
        if class.cw_min == 0 {
            return Err(SimError::ZeroCwMin);
        }
        if class.cw_min > config.cw_max {
            return Err(SimError::CwMinAboveCwMax);
        }
    }
    proof {
        assert(classes.skip(classes.len() as int) =~= Seq::<StationClassConfig>::empty());
    }
    Ok(())
}

/// One station per user, class by class, each with a counter drawn below its minimum.
/// The second result lists the bound each station's draw was requested with: the whole
/// window of its class, `0..cw_min`.
fn build_stations(config: &SimulationConfig, rng: &mut StdRng) -> (result: (Vec<StationState>, Ghost<Seq<u32>>))
    requires
        config.users_spec() <= u32::MAX,
        forall|j: int| 0 <= j < config.classes@.len() ==> (#[trigger] config.classes@[j]).cw_min >= 1,
    ensures
        slotted_initial(*config, SlottedState { stations: result.0@, collision_events: 0, slot: 0 }),
        result.1@.len() == result.0@.len(),
        forall|k: int| 0 <= k < result.0@.len() ==> result.1@[k] == (#[trigger] result.0@[k]).cw_min,
{
    let ghost classes = config.classes@;
    let mut stations: Vec<StationState> = Vec::new();
    let mut requested: Ghost<Seq<u32>> = Ghost(Seq::empty());
    proof {
        assert(classes.take(0) =~= Seq::<StationClassConfig>::empty());
        lemma_config_roster_len(classes);
    }
    for c in 0..config.classes.len()
        invariant
            classes == config.classes@,
            forall|j: int| 0 <= j < classes.len() ==> (#[trigger] classes[j]).cw_min >= 1,
            config_roster(classes).len() <= u32::MAX,
            stations@.len() == config_roster(classes.take(c as int)).len(),
            requested@.len() == stations@.len(),
            forall|k: int| 0 <= k < stations@.len() ==> requested@[k] == (#[trigger] stations@[k]).cw_min,
            forall|k: int|
                0 <= k < stations@.len() ==> {
                    let st = #[trigger] stations@[k];
                    let rk = config_roster(classes.take(c as int))[k];
                    &&& st.id == k
                    &&& st.class_name == rk.name
                    &&& st.cw_min == rk.cw_min
                    &&& st.current_cw == rk.cw_min
                    &&& st.backoff < rk.cw_min
                    &&& st.packet_age_slots == 0
                    &&& st.successful_packets == 0
                    &&& st.collision_attempts == 0
                    &&& st.total_delay_slots == 0
                },
    {
        let class = &config.classes[c];
        let ghost base = config_roster(classes.take(c as int));
        let ghost next = config_roster(classes.take(c + 1));
        proof {
            lemma_config_roster_take(classes, c as int);
            lemma_config_roster_prefix_len(classes, c + 1);
        }
        for u in 0..class.users
            invariant
                classes == config.classes@,
                class == &config.classes@[c as int],
                class.cw_min >= 1,
                next == base + Seq::new(class.users as nat, |i: int| classes[c as int]),
                next.len() <= u32::MAX,
                stations@.len() == base.len() + u,
                requested@.len() == stations@.len(),
                forall|k: int| 0 <= k < stations@.len() ==> requested@[k] == (#[trigger] stations@[k]).cw_min,
                forall|k: int|
                    0 <= k < stations@.len() ==> {
                        let st = #[trigger] stations@[k];
                        let rk = next[k];
                        &&& st.id == k
                        &&& st.class_name == rk.name
                        &&& st.cw_min == rk.cw_min
                        &&& st.current_cw == rk.cw_min
                        &&& st.backoff < rk.cw_min
                        &&& st.packet_age_slots == 0
                        &&& st.successful_packets == 0
                        &&& st.collision_attempts == 0
                        &&& st.total_delay_slots == 0
                    },
        {
            let id = stations.len();
            let backoff = sample_backoff_unchecked(class.cw_min, rng, &mut requested);
            stations.push(
                StationState {
                    id,
                    class_name: class.name.clone(),
                    cw_min: class.cw_min,
                    current_cw: class.cw_min,
                    backoff,
                    packet_age_slots: 0,
                    successful_packets: 0,
                    collision_attempts: 0,
                    total_delay_slots: 0,
                },
            );
        }
    }
    proof {
        assert(classes.take(classes.len() as int) =~= classes);
    }
    (stations, requested)
}

fn zero_backoff_contenders(stations: &Vec<StationState>) -> (contenders: Vec<usize>)
    ensures
        contenders@ == zero_indices(stations@, stations@.len() as int),
{
    let mut contenders: Vec<usize> = Vec::new();
    for index in 0..stations.len()
        invariant
            contenders@ == zero_indices(stations@, index as int),
    {
        if stations[index].backoff == 0 {
            contenders.push(index);
        }
    }
    contenders
}

fn increment_packet_ages(stations: &mut Vec<StationState>)
    requires
        forall|i: int| 0 <= i < old(stations)@.len() ==> (#[trigger] old(stations)@[i]).packet_age_slots < u64::MAX,
    ensures
        final(stations)@ == Seq::new(old(stations)@.len(), |i: int| slotted_age(old(stations)@[i])),
{
    let ghost entry = stations@;
    let n = stations.len();
    for i in 0..n
        invariant
            n == entry.len(),
            stations@.len() == entry.len(),
            forall|j: int| 0 <= j < entry.len() ==> (#[trigger] entry[j]).packet_age_slots < u64::MAX,
            forall|j: int| 0 <= j < i ==> #[trigger] stations@[j] == slotted_age(entry[j]),
            forall|j: int| i <= j < entry.len() ==> #[trigger] stations@[j] == entry[j],
    {
        stations[i].packet_age_slots = stations[i].packet_age_slots + 1;
    }
    proof {
        assert(stations@ =~= Seq::new(entry.len(), |i: int| slotted_age(entry[i])));
    }
}

fn decrement_backoff_counters(stations: &mut Vec<StationState>)
    ensures
        final(stations)@ == Seq::new(old(stations)@.len(), |i: int| slotted_decrement(old(stations)@[i])),
{
    let ghost entry = stations@;
    let n = stations.len();
    for i in 0..n
        invariant
            n == entry.len(),
            stations@.len() == entry.len(),
            forall|j: int| 0 <= j < i ==> #[trigger] stations@[j] == slotted_decrement(entry[j]),
            forall|j: int| i <= j < entry.len() ==> #[trigger] stations@[j] == entry[j],
    {
        if stations[i].backoff > 0 {
            stations[i].backoff = stations[i].backoff - 1;
        }
    }
    proof {
        assert(stations@ =~= Seq::new(entry.len(), |i: int| slotted_decrement(entry[i])));
    }
}

/// A counter drawn uniformly below `cw`; a zero window is an error.
pub fn sample_backoff(cw: u32, rng: &mut StdRng) -> (result: Result<u32, SimError>)
    ensures
        cw == 0 ==> result == Err::<u32, SimError>(SimError::ZeroContentionWindow),
        cw > 0 ==> (result matches Ok(v) && v < cw),
{
    if cw == 0 {
        return Err(SimError::ZeroContentionWindow);
    }
    let mut requested: Ghost<Seq<u32>> = Ghost(Seq::empty());
    Ok(sample_backoff_unchecked(cw, rng, &mut requested))
}

/// A counter drawn below `cw`; `requested` records the bound handed to the generator.
fn sample_backoff_unchecked(cw: u32, rng: &mut StdRng, requested: &mut Ghost<Seq<u32>>) -> (value: u32)
    requires
        cw > 0,
    ensures
        value < cw,
        final(requested)@ == old(requested)@.push(cw),
{
    let value = sample_below(cw, rng);
    *requested = Ghost((*requested)@.push(cw));
    value
}

/// The sender of a success records it, resets its window and draws a new counter.
fn record_success(stations: &mut Vec<StationState>, station_id: usize, rng: &mut StdRng) -> (result: Result<
    u32,
    SimError,
>)
    requires
        station_id < old(stations)@.len(),
        old(stations)@[station_id as int].cw_min >= 1,
        old(stations)@[station_id as int].successful_packets < u64::MAX,
        old(stations)@[station_id as int].total_delay_slots + old(stations)@[station_id as int].packet_age_slots
            <= u64::MAX,
    ensures
        result matches Ok(draw) && draw < old(stations)@[station_id as int].cw_min && final(stations)@
            == old(stations)@.update(
            station_id as int,
            slotted_success(old(stations)@[station_id as int], draw),
        ),
{
    stations[station_id].successful_packets = stations[station_id].successful_packets + 1;
    stations[station_id].total_delay_slots = stations[station_id].total_delay_slots
        + stations[station_id].packet_age_slots;
    stations[station_id].packet_age_slots = 0;
    stations[station_id].current_cw = stations[station_id].cw_min;
    let draw = match sample_backoff(stations[station_id].current_cw, rng) {
        Ok(draw) => draw,
        Err(e) => return Err(e),
    };
    stations[station_id].backoff = draw;
    Ok(draw)
}

/// Every station whose counter is zero records the attempt, doubles its window (capped)
/// and draws a new counter, in station order.
fn record_collisions(stations: &mut Vec<StationState>, cw_max: u32, rng: &mut StdRng) -> (result: Result<
    Ghost<Seq<u32>>,
    SimError,
>)
    requires
        cw_max >= 1,
        old(stations)@.len() <= usize::MAX,
        forall|i: int|
            0 <= i < old(stations)@.len() ==> (#[trigger] old(stations)@[i]).collision_attempts < u64::MAX
                && old(stations)@[i].current_cw >= 1,
    ensures
        result matches Ok(draws) && {
            &&& draws@.len() == zero_indices(old(stations)@, old(stations)@.len() as int).len()
            &&& forall|i: int|
                0 <= i < old(stations)@.len() && (#[trigger] old(stations)@[i]).backoff == 0
                    ==> draws@[zero_indices(old(stations)@, i).len() as int] < doubled_cw(
                    old(stations)@[i].current_cw,
                    cw_max,
                )
            &&& final(stations)@ == Seq::new(
                old(stations)@.len(),
                |i: int|
                    if old(stations)@[i].backoff == 0 {
                        slotted_collision(
                            old(stations)@[i],
                            draws@[zero_indices(old(stations)@, i).len() as int],
                            cw_max,
                        )
                    } else {
                        old(stations)@[i]
                    },
            )
        },
{
    let ghost entry = stations@;
    let ghost mut drawn: Seq<u32> = Seq::empty();
    let n = stations.len();
    for index in 0..n
        invariant
            cw_max >= 1,
            n == entry.len(),
            stations@.len() == entry.len(),
            entry.len() <= usize::MAX,
            forall|i: int|
                0 <= i < entry.len() ==> (#[trigger] entry[i]).collision_attempts < u64::MAX
                    && entry[i].current_cw >= 1,
            drawn.len() == zero_indices(entry, index as int).len(),
            forall|i: int|
                0 <= i < index && (#[trigger] entry[i]).backoff == 0 ==> drawn[zero_indices(entry, i).len() as int]
                    < doubled_cw(entry[i].current_cw, cw_max),
            forall|j: int|
                0 <= j < index ==> #[trigger] stations@[j] == if entry[j].backoff == 0 {
                    slotted_collision(entry[j], drawn[zero_indices(entry, j).len() as int], cw_max)
                } else {
                    entry[j]
                },
            forall|j: int| index <= j < entry.len() ==> #[trigger] stations@[j] == entry[j],
    {
        proof {
            lemma_zero_indices(entry, index as int);
        }
        if stations[index].backoff == 0 {
            stations[index].collision_attempts = stations[index].collision_attempts + 1;
            let current = stations[index].current_cw;
            let doubled: u32 = if current > u32::MAX / 2 {
                u32::MAX
            } else {
                2 * current
            };
            stations[index].current_cw = if doubled < cw_max {
                doubled
            } else {
                cw_max
            };
            let draw = match sample_backoff(stations[index].current_cw, rng) {
                Ok(draw) => draw,
                Err(e) => return Err(e),
            };
            stations[index].backoff = draw;
            proof {
                drawn = drawn.push(draw);
            }
        }
    }
    proof {
        lemma_zero_indices(entry, entry.len() as int);
        assert(stations@ =~= Seq::new(
            entry.len(),
            |i: int|
                if entry[i].backoff == 0 {
                    slotted_collision(entry[i], drawn[zero_indices(entry, i).len() as int], cw_max)
                } else {
                    entry[i]
                },
        ));
    }
    Ok(Ghost(drawn))
}

proof fn lemma_zero_indices_same_counters(a: Seq<StationState>, b: Seq<StationState>, k: int)
    requires
        0 <= k <= a.len(),
        a.len() == b.len(),
        forall|i: int| 0 <= i < a.len() ==> (#[trigger] a[i]).backoff == b[i].backoff,
    ensures
        zero_indices(a, k) == zero_indices(b, k),
    decreases k,
{
    if k > 0 {
        lemma_zero_indices_same_counters(a, b, k - 1);
    }
}

proof fn lemma_slotted_tallies_fit(config: SimulationConfig, s: SlottedState)
    requires
        slotted_invariant(config, s),
        s.stations.len() <= u32::MAX,
        s.stations.len() * config.total_slots <= u64::MAX,
    ensures
        tallies_fit(slotted_tallies(s.stations)),
{
    let ts = slotted_tallies(s.stations);
    let bound = s.slot as int;
    assert forall|i: int| 0 <= i < ts.len() implies field_value(#[trigger] ts[i], TallyField::Successes)
        <= bound && field_value(ts[i], TallyField::Collisions) <= bound && field_value(
        ts[i],
        TallyField::Delay,
    ) <= bound by {
        assert(s.stations[i].total_delay_slots + s.stations[i].packet_age_slots == s.slot);
    }
    lemma_total_bounded(ts, TallyField::Successes, bound);
    lemma_total_bounded(ts, TallyField::Collisions, bound);
    lemma_total_bounded(ts, TallyField::Delay, bound);
    let n = ts.len() as int;
    let total = config.total_slots as int;
    assert(n * bound <= n * total) by (nonlinear_arith)
        requires
            0 <= bound <= total,
            n >= 0,
    ;
}

fn tally_slotted(stations: &Vec<StationState>) -> (tallies: Vec<StationTally>)
    ensures
        tallies@ == slotted_tallies(stations@),
{
    let mut tallies: Vec<StationTally> = Vec::new();
    for i in 0..stations.len()
        invariant
            tallies@ =~= slotted_tallies(stations@.take(i as int)),
    {
        let station = &stations[i];
        tallies.push(
            StationTally {
                class_name: station.class_name.clone(),
                successful_packets: station.successful_packets,
                collision_attempts: station.collision_attempts,
                total_delay_slots: station.total_delay_slots,
            },
        );
    }
    proof {
        assert(stations@.take(stations@.len() as int) =~= stations@);
    }
    tallies
}

fn class_metrics_of(groups: &Vec<ClassReport>) -> (per_class: Vec<ClassMetrics>)
    ensures
        metrics_as_reports(per_class@) == groups@,
{
    let mut per_class: Vec<ClassMetrics> = Vec::new();
    for i in 0..groups.len()
        invariant
            per_class@.len() == i,
            forall|j: int| 0 <= j < i ==> metrics_as_report(#[trigger] per_class@[j]) == groups@[j],
    {
        let group = &groups[i];
        per_class.push(
            ClassMetrics {
                class_name: group.class_name.clone(),
                users: group.users,
                successful_packets: group.successful_packets,
                collision_attempts: group.collision_attempts,
                total_delay_slots: group.total_delay_slots,
            },
        );
    }
    proof {
        assert(metrics_as_reports(per_class@) =~= groups@);
    }
    per_class
}

/// Runs the plain slotted model of `config`: each slot, a station whose counter is zero
/// sends; alone it succeeds (window back to its minimum, counter drawn below it), together
/// they collide (window doubled up to the cap, counter drawn below it); with no sender every
/// counter counts down. Counters come from rand's `StdRng` seeded with the configuration's
/// seed; the result is that of a complete run for some counters the generator may hand out.
pub fn simulate(config: &SimulationConfig) -> (result: Result<SimulationResult, SimError>)
    requires
        config.users_spec() <= u32::MAX,
        config.users_spec() * config.total_slots <= u64::MAX,
    ensures
        slotted_outcome(result, *config),
{
    match validate_config(config) {
        Err(e) => return Err(e),
        Ok(()) => {},
    }
    let mut rng = seeded_rng(config.seed);
    let (stations, _requested) = build_stations(config, &mut rng);
    let mut stations = stations;
    let mut collision_events: u64 = 0;
    let ghost mut states: Seq<SlottedState> = seq![
        SlottedState { stations: stations@, collision_events: 0, slot: 0 },
    ];
    proof {
        lemma_config_roster_valid(config.classes@, config.cw_max);
        lemma_slotted_initial(*config, states[0]);
        lemma_config_roster_len(config.classes@);
    }
    for slot in 0..config.total_slots
        invariant
            states.len() == slot + 1,
            slotted_initial(*config, states[0]),
            forall|k: int| 0 <= k < slot ==> #[trigger] slotted_step_ok(config.cw_max, states[k], states[k + 1]),
            states.last() == (SlottedState { stations: stations@, collision_events, slot }),
            slotted_invariant(*config, states.last()),
            config_roster(config.classes@).len() == config.users_spec(),
            config.users_spec() <= u32::MAX,
            config.users_spec() * config.total_slots <= u64::MAX,
            config.cw_max >= 1,
            config.total_slots > 0,
    {
        let ghost pre = SlottedState { stations: stations@, collision_events, slot };
        let ghost before = states;
        proof {
            lemma_zero_indices(pre.stations, pre.stations.len() as int);
            lemma_total_nonneg(slotted_tallies(pre.stations), TallyField::Successes);
        }
        let contenders = zero_backoff_contenders(&stations);
        increment_packet_ages(&mut stations);
        let ghost aged = stations@;
        proof {
            lemma_zero_indices_same_counters(aged, pre.stations, pre.stations.len() as int);
            assert forall|i: int| 0 <= i < aged.len() implies #[trigger] zero_indices(aged, i) == zero_indices(
                pre.stations,
                i,
            ) by {
                lemma_zero_indices_same_counters(aged, pre.stations, i);
            }
        }
        let outcome = if contenders.len() == 0 {
            TransmissionOutcome::Idle
        } else if contenders.len() == 1 {
            TransmissionOutcome::Success { station_id: contenders[0] }
        } else {
            TransmissionOutcome::Collision { station_ids: contenders }
        };
        let ghost mut draws: Seq<u32> = Seq::empty();
        match outcome {
            TransmissionOutcome::Idle => {
                decrement_backoff_counters(&mut stations);
            },
            TransmissionOutcome::Success { station_id } => {
                let draw = match record_success(&mut stations, station_id, &mut rng) {
                    Ok(draw) => draw,
                    Err(e) => return Err(e),
                };
                proof {
                    draws = seq![draw];
                    assert(aged[station_id as int] == slotted_age(pre.stations[station_id as int]));
                }
            },
            TransmissionOutcome::Collision { station_ids } => {
                collision_events += 1;
                let drawn = match record_collisions(&mut stations, config.cw_max, &mut rng) {
                    Ok(drawn) => drawn,
                    Err(e) => return Err(e),
                };
                proof {
                    draws = drawn@;
                    assert forall|i: int|
                        0 <= i < pre.stations.len() && (#[trigger] pre.stations[i]).backoff == 0 implies draws[zero_indices(
                            pre.stations,
                            i,
                        ).len() as int] < doubled_cw(pre.stations[i].current_cw, config.cw_max) by {
                        assert(aged[i] == slotted_age(pre.stations[i]));
                        assert(zero_indices(aged, i) == zero_indices(pre.stations, i));
                    }
                }
            },
        }
        proof {
            let post = SlottedState { stations: stations@, collision_events, slot: (slot + 1) as u64 };
            assert(slotted_draws_valid(config.cw_max, pre, draws));
            assert(post.stations =~= slotted_next(config.cw_max, pre, draws).stations);
            assert(post == slotted_next(config.cw_max, pre, draws));
            lemma_slotted_step(*config, pre, draws);
            states = states.push(post);
            assert forall|k: int| 0 <= k < slot + 1 implies #[trigger] slotted_step_ok(
                config.cw_max,
                states[k],
                states[k + 1],
            ) by {
                if k < slot {
                    assert(states[k] == before[k] && states[k + 1] == before[k + 1]);
                }
            }
        }
    }
    let ghost last = states.last();
    proof {
        lemma_slotted_tallies_fit(*config, last);
        lemma_total_nonneg(slotted_tallies(last.stations), TallyField::Successes);
    }
    let tallies = tally_slotted(&stations);
    let (total_successful_packets, total_delay_slots) = sum_tallies(&tallies);
    let groups = group_by_class(&tallies);
    let per_class = class_metrics_of(&groups);
    let result = SimulationResult {
        total_slots: config.total_slots,
        payload_bits: config.payload_bits,
        aggregate: AggregateMetrics { total_successful_packets, collision_events, total_delay_slots },
        per_class,
    };
    proof {
        assert(slotted_chain(*config, states));
        assert(result_matches(result, *config, states.last()));
        assert(slotted_laws(result, *config));
    }
    Ok(result)
}

} // verus!
