use vstd::prelude::*;

use crate::domain::scenario::{users_sum, Scenario, StationClass};

use super::medium::MediumState;
use super::metrics::{field_total, station_tallies, TallyField};
use super::phase::StationPhase;
use super::station::StationRuntime;
use super::timing::TimingModel;
use super::window::{grown_width, ContentionWindow};

verus! {

/// The state of a run between two slots, as the contracts speak of it.
pub struct SimState {
    pub medium: MediumState,
    pub stations: Seq<StationRuntime>,
    pub collision_events: u64,
    pub next_slot: u64,
}

pub open spec fn age_station(s: StationRuntime) -> StationRuntime {
    StationRuntime { packet_age_slots: (s.packet_age_slots + 1) as u64, ..s }
}

/// Every station's packet grows one slot older.
pub open spec fn aged(stations: Seq<StationRuntime>) -> Seq<StationRuntime> {
    Seq::new(stations.len(), |i: int| age_station(stations[i]))
}

pub open spec fn contend_station(s: StationRuntime, defer_slots: u32) -> StationRuntime {
    if s.phase == StationPhase::WaitingForMedium {
        s.enter_defer_spec(defer_slots)
    } else {
        s
    }
}

/// On an idle medium, every waiting station starts its defer.
pub open spec fn begin_contention(stations: Seq<StationRuntime>, defer_slots: u32) -> Seq<
    StationRuntime,
> {
    Seq::new(stations.len(), |i: int| contend_station(stations[i], defer_slots))
}

/// The indices, in increasing order, of the stations among the first `k` that are ready.
pub open spec fn ready_indices(stations: Seq<StationRuntime>, k: int) -> Seq<usize>
    decreases k,
{
    if k <= 0 {
        Seq::empty()
    } else {
        let before = ready_indices(stations, k - 1);
        if stations[k - 1].is_ready_spec() {
            before.push((k - 1) as usize)
        } else {
            before
        }
    }
}

/// One idle contention slot for every station.
pub open spec fn idle_advance(stations: Seq<StationRuntime>) -> Seq<StationRuntime> {
    Seq::new(stations.len(), |i: int| stations[i].advance_idle_slot_spec())
}

/// The sender of a success: one more delivery with its delay, a fresh packet, the window
/// back to its minimum, the new counter `draw`, and waiting for the medium.
pub open spec fn success_update(s: StationRuntime, draw: u32) -> StationRuntime {
    StationRuntime {
        phase: StationPhase::WaitingForMedium,
        defer_slots_remaining: 0,
        successful_packets: (s.successful_packets + 1) as u64,
        total_delay_slots: (s.total_delay_slots + s.packet_age_slots) as u64,
        packet_age_slots: 0,
        window: s.window.reset_spec(),
        backoff: s.backoff.replace_spec(draw),
        ..s
    }
}

/// A sender in a collision: one more attempt, a grown window, the new counter `draw`,
/// and waiting for the medium.
pub open spec fn collision_update(s: StationRuntime, draw: u32) -> StationRuntime {
    StationRuntime {
        phase: StationPhase::WaitingForMedium,
        defer_slots_remaining: 0,
        collision_attempts: (s.collision_attempts + 1) as u64,
        window: s.window.grown_spec(),
        backoff: s.backoff.replace_spec(draw),
        ..s
    }
}

pub open spec fn after_success(stations: Seq<StationRuntime>, id: int, draw: u32) -> Seq<
    StationRuntime,
> {
    Seq::new(
        stations.len(),
        |i: int|
            if i == id {
                success_update(stations[i], draw)
            } else {
                stations[i].freeze_for_busy_spec()
            },
    )
}

/// The `k`-th ready station (in index order) takes the `k`-th draw.
pub open spec fn after_collision(stations: Seq<StationRuntime>, draws: Seq<u32>) -> Seq<
    StationRuntime,
> {
    Seq::new(
        stations.len(),
        |i: int|
            if stations[i].is_ready_spec() {
                collision_update(stations[i], draws[ready_indices(stations, i).len() as int])
            } else {
                stations[i].freeze_for_busy_spec()
            },
    )
}

/// The stations as they contend in the slot that starts from `s` on an idle medium.
pub open spec fn contention_view(timing: TimingModel, s: SimState) -> Seq<StationRuntime> {
    begin_contention(aged(s.stations), timing.config.difs_slots)
}

pub open spec fn contenders_of(timing: TimingModel, s: SimState) -> Seq<usize> {
    let c = contention_view(timing, s);
    ready_indices(c, c.len() as int)
}

/// `draws` are counters the generator may hand out in the slot that starts from `s`:
/// none on a busy or idle slot, one within the winner's minimum window on a success,
/// one per sender within its grown window on a collision.
pub open spec fn draws_valid(timing: TimingModel, s: SimState, draws: Seq<u32>) -> bool {
    let c = contention_view(timing, s);
    let ready = contenders_of(timing, s);
    if s.medium.busy_slots_remaining > 0 || ready.len() == 0 {
        draws.len() == 0
    } else if ready.len() == 1 {
        draws.len() == 1 && draws[0] <= c[ready[0] as int].window.cw_min
    } else {
        &&& draws.len() == ready.len()
        &&& forall|i: int|
            0 <= i < c.len() && (#[trigger] c[i]).is_ready_spec() ==> draws[ready_indices(
                c,
                i,
            ).len() as int] <= grown_width(c[i].window.current, c[i].window.cw_max)
    }
}

/// One slot of the DCF model, from `s`, with the counters `draws`.
pub open spec fn next_state(timing: TimingModel, s: SimState, draws: Seq<u32>) -> SimState {
    let next_slot = (s.next_slot + 1) as u64;
    if s.medium.busy_slots_remaining > 0 {
        SimState {
            medium: s.medium.consume_busy_slot_spec(),
            stations: aged(s.stations),
            collision_events: s.collision_events,
            next_slot,
        }
    } else {
        let c = contention_view(timing, s);
        let ready = contenders_of(timing, s);
        if ready.len() == 0 {
            SimState {
                medium: s.medium.observe_idle_slot_spec(),
                stations: idle_advance(c),
                collision_events: s.collision_events,
                next_slot,
            }
        } else if ready.len() == 1 {
            SimState {
                medium: s.medium.start_busy_spec(timing.success_busy_spec()),
                stations: after_success(c, ready[0] as int, draws[0]),
                collision_events: s.collision_events,
                next_slot,
            }
        } else {
            SimState {
                medium: s.medium.start_busy_spec(timing.collision_busy_spec()),
                stations: after_collision(c, draws),
                collision_events: (s.collision_events + 1) as u64,
                next_slot,
            }
        }
    }
}

/// `post` follows `pre` by one slot for some counters the generator may hand out.
pub open spec fn step_ok(timing: TimingModel, pre: SimState, post: SimState) -> bool {
    exists|draws: Seq<u32>| draws_valid(timing, pre, draws) && post == next_state(timing, pre, draws)
}

/// One entry per station: the class of each station, classes in order, each repeated
/// as many times as it has users.
pub open spec fn roster(classes: Seq<StationClass>) -> Seq<StationClass>
    decreases classes.len(),
{
    if classes.len() == 0 {
        Seq::empty()
    } else {
        roster(classes.drop_last()) + Seq::new(classes.last().users as nat, |i: int| classes.last())
    }
}

/// A station as a run creates it: its class, a window at the class minimum, a counter
/// drawn within that window, and the DIFS defer started.
pub open spec fn station_initial(
    st: StationRuntime,
    id: int,
    class: StationClass,
    cw_max: u32,
    difs_slots: u32,
) -> bool {
    &&& st.id == id
    &&& st.class_name == class.name
    &&& st.cw_min == class.cw_min
    &&& st.window == (ContentionWindow { cw_min: class.cw_min, current: class.cw_min, cw_max })
    &&& st.backoff.counter <= class.cw_min
    &&& st.backoff.frozen_counter is None
    &&& st.phase == if difs_slots == 0 {
        StationPhase::BackoffCountdown
    } else {
        StationPhase::Defer
    }
    &&& st.defer_slots_remaining == difs_slots
    &&& st.packet_age_slots == 0
    &&& st.successful_packets == 0
    &&& st.collision_attempts == 0
    &&& st.total_delay_slots == 0
}

/// The state a run of `scenario` starts in.
pub open spec fn initial_state(scenario: Scenario, s: SimState) -> bool {
    let r = roster(scenario.classes@);
    &&& s.medium == (MediumState { busy_slots_remaining: 0, idle_slots: 0 })
    &&& s.collision_events == 0
    &&& s.next_slot == 0
    &&& s.stations.len() == r.len()
    &&& forall|k: int|
        0 <= k < r.len() ==> station_initial(
            #[trigger] s.stations[k],
            k,
            r[k],
            scenario.window.cw_max,
            scenario.timing.difs_slots,
        )
}

/// `states` is a complete run of `scenario`: it starts in the initial state and each
/// state follows the one before by one slot, for as many slots as the scenario asks.
pub open spec fn run_chain(scenario: Scenario, states: Seq<SimState>) -> bool {
    let timing = TimingModel { config: scenario.timing };
    &&& states.len() == scenario.timing.total_slots + 1
    &&& initial_state(scenario, states[0])
    &&& forall|k: int|
        0 <= k < scenario.timing.total_slots ==> #[trigger] step_ok(
            timing,
            states[k],
            states[k + 1],
        )
}

/// The first `n + 1` states of a run of `scenario`.
pub open spec fn chain_prefix(scenario: Scenario, states: Seq<SimState>, n: int) -> bool {
    let timing = TimingModel { config: scenario.timing };
    &&& states.len() == n + 1
    &&& initial_state(scenario, states[0])
    &&& forall|k: int| 0 <= k < n ==> #[trigger] step_ok(timing, states[k], states[k + 1])
}

pub open spec fn success_total(stations: Seq<StationRuntime>) -> int {
    field_total(station_tallies(stations), TallyField::Successes)
}

/// What every station keeps through a run.
pub open spec fn station_ok(st: StationRuntime, class: StationClass, cw_max: u32, next_slot: u64) -> bool {
    &&& st.class_name == class.name
    &&& st.cw_min == class.cw_min
    &&& st.window.cw_min == class.cw_min
    &&& st.window.cw_max == cw_max
    &&& st.window.within_bounds()
    &&& st.backoff.counter <= st.window.current
    &&& (st.backoff.frozen_counter matches Some(f) ==> f <= st.window.current)
    &&& st.total_delay_slots + st.packet_age_slots == next_slot
    &&& st.successful_packets + st.collision_attempts <= next_slot
}

/// What a run keeps from slot to slot.
pub open spec fn state_invariant(scenario: Scenario, s: SimState) -> bool {
    let r = roster(scenario.classes@);
    let difs = scenario.timing.difs_slots;
    &&& s.next_slot <= scenario.timing.total_slots
    &&& s.stations.len() == r.len()
    &&& forall|i: int|
        0 <= i < s.stations.len() ==> station_ok(
            #[trigger] s.stations[i],
            r[i],
            scenario.window.cw_max,
            s.next_slot,
        )
    &&& success_total(s.stations) + s.collision_events <= s.next_slot
    &&& (s.stations.len() <= 1 ==> s.collision_events == 0)
    &&& (s.next_slot <= difs ==> success_total(s.stations) == 0 && s.collision_events == 0)
    &&& (s.next_slot < difs ==> {
        &&& s.medium.busy_slots_remaining == 0
        &&& forall|i: int|
            0 <= i < s.stations.len() ==> (#[trigger] s.stations[i]).phase == StationPhase::Defer
                && s.stations[i].defer_slots_remaining == difs - s.next_slot
    })
}

/// Every class minimum lies within the cap.
pub open spec fn windows_valid(scenario: Scenario) -> bool {
    forall|j: int|
        0 <= j < scenario.classes@.len() ==> (#[trigger] scenario.classes@[j]).cw_min
            <= scenario.window.cw_max
}

} // verus!
