use rand::rngs::StdRng;
use vstd::prelude::*;

use crate::domain::report::{AggregateReport, ClassReport, SimulationReport};
use crate::domain::scenario::{Scenario, StationClass};
use crate::error::SimError;

use super::backoff::BackoffState;
use super::invariants::{
    lemma_contention_ok, lemma_initial_invariant, lemma_ready_indices, lemma_roster_len,
    lemma_roster_take, lemma_step_invariant, lemma_invariant_tallies_fit, roster_classes_valid,
};
use super::medium::MediumState;
use super::metrics::{
    build_report, field_total, group_by_class, groups_match, report_matches, station_tallies,
    sum_tallies, tally_stations, StationTally, TallyField,
};
use super::model::{
    after_collision, after_success, aged, begin_contention, chain_prefix, contention_view,
    contenders_of, draws_valid, idle_advance, initial_state, next_state, ready_indices, roster,
    run_chain, state_invariant, station_initial, step_ok, success_total, windows_valid, SimState,
};
use super::phase::StationPhase;
use super::resolver::{resolve_transmission, TransmissionResolution};
use super::rng::{sample_up_to, seeded_rng};
use super::station::StationRuntime;
use super::timing::TimingModel;
use super::window::{grown_width, ContentionWindow};

verus! {

/// One station as a trace frame shows it.
#[derive(Debug, Clone, PartialEq, Eq)]
pub struct StationTraceSnapshot {
    pub id: usize,
    pub class_name: String,
    pub phase: StationPhase,
    pub current_cw: u32,
    pub backoff_counter: u32,
    pub frozen_backoff_counter: Option<u32>,
    pub defer_slots_remaining: u32,
    pub packet_age_slots: u64,
    pub successful_packets: u64,
    pub collision_attempts: u64,
}

/// The totals of a run so far, after `elapsed_slots` slots.
#[derive(Debug, Clone, PartialEq, Eq)]
pub struct TraceProgressSnapshot {
    pub elapsed_slots: u64,
    pub aggregate: AggregateReport,
    pub per_class: Vec<ClassReport>,
    pub zero_success_stations: u32,
    pub max_station_successes: u64,
}

/// What happened on the medium in one slot.
#[derive(Debug, Clone, PartialEq, Eq)]
pub enum SlotEvent {
    Busy { busy_slots_remaining: u32 },
    Idle,
    Success { station_id: usize },
    Collision { station_ids: Vec<usize> },
}

/// One slot of a trace: the medium, the event, every station and the totals so far.
#[derive(Debug, Clone, PartialEq, Eq)]
pub struct TraceFrame {
    pub slot: u64,
    pub medium_busy: bool,
    pub medium_busy_slots_remaining: u32,
    pub idle_slots: u32,
    pub event: SlotEvent,
    pub stations: Vec<StationTraceSnapshot>,
    pub progress: TraceProgressSnapshot,
}

/// Every frame of a run, and its report.
#[derive(Debug, Clone, PartialEq, Eq)]
pub struct SimulationTrace {
    pub frames: Vec<TraceFrame>,
    pub report: SimulationReport,
}

struct DcfSimulation {
    timing: TimingModel,
    rng: StdRng,
    medium: MediumState,
    stations: Vec<StationRuntime>,
    collision_events: u64,
    next_slot: u64,
}

/// The first problem a scenario's classes have, in class order.
pub open spec fn class_error(classes: Seq<StationClass>, cw_max: u32) -> Option<SimError>
    decreases classes.len(),
{
    if classes.len() == 0 {
        None
    } else if classes[0].users == 0 {
        Some(SimError::EmptyClass)
    } else if classes[0].cw_min > cw_max {
        Some(SimError::CwMinAboveCwMax)
    } else {
        class_error(classes.drop_first(), cw_max)
    }
}

/// The first problem of a scenario, in the order the checks are made; `None` when it can run.
pub open spec fn scenario_error(scenario: Scenario) -> Option<SimError> {
    if scenario.timing.total_slots == 0 {
        Some(SimError::ZeroTotalSlots)
    } else if scenario.timing.payload_bits == 0 {
        Some(SimError::ZeroPayloadBits)
    } else if scenario.window.cw_max == 0 {
        Some(SimError::ZeroCwMax)
    } else if scenario.timing.tx_duration_slots == 0 {
        Some(SimError::ZeroTxDuration)
    } else if scenario.classes@.len() == 0 {
        Some(SimError::NoClasses)
    } else {
        class_error(scenario.classes@, scenario.window.cw_max)
    }
}

pub open spec fn snapshot_matches(snap: StationTraceSnapshot, s: StationRuntime) -> bool {
    &&& snap.id == s.id
    &&& snap.class_name == s.class_name
    &&& snap.phase == s.phase
    &&& snap.current_cw == s.window.current
    &&& snap.backoff_counter == s.backoff.counter
    &&& snap.frozen_backoff_counter == s.backoff.frozen_counter
    &&& snap.defer_slots_remaining == s.defer_slots_remaining
    &&& snap.packet_age_slots == s.packet_age_slots
    &&& snap.successful_packets == s.successful_packets
    &&& snap.collision_attempts == s.collision_attempts
}

pub open spec fn snapshots_match(snaps: Seq<StationTraceSnapshot>, stations: Seq<StationRuntime>) -> bool {
    &&& snaps.len() == stations.len()
    &&& forall|i: int| 0 <= i < snaps.len() ==> snapshot_matches(#[trigger] snaps[i], stations[i])
}

/// `p` holds the totals of `stations` after `elapsed` slots and `collision_events` collisions.
pub open spec fn progress_matches(
    p: TraceProgressSnapshot,
    stations: Seq<StationRuntime>,
    collision_events: u64,
    elapsed: u64,
) -> bool {
    &&& p.elapsed_slots == elapsed
    &&& p.aggregate.total_successful_packets == field_total(station_tallies(stations), TallyField::Successes)
    &&& p.aggregate.collision_events == collision_events
    &&& p.aggregate.total_delay_slots == field_total(station_tallies(stations), TallyField::Delay)
    &&& groups_match(p.per_class@, station_tallies(stations))
    &&& p.zero_success_stations == zero_success_count(station_tallies(stations))
    &&& p.max_station_successes == max_successes(station_tallies(stations))
}

/// How many stations have delivered nothing.
pub open spec fn zero_success_count(ts: Seq<StationTally>) -> int
    decreases ts.len(),
{
    if ts.len() == 0 {
        0
    } else {
        zero_success_count(ts.drop_last()) + if ts.last().successful_packets == 0 {
            1int
        } else {
            0int
        }
    }
}

/// The most packets any one station has delivered; 0 without stations.
pub open spec fn max_successes(ts: Seq<StationTally>) -> int
    decreases ts.len(),
{
    if ts.len() == 0 {
        0
    } else if max_successes(ts.drop_last()) < ts.last().successful_packets {
        ts.last().successful_packets as int
    } else {
        max_successes(ts.drop_last())
    }
}

/// The event of the slot that starts from `pre` and ends in `post`.
pub open spec fn event_matches(e: SlotEvent, timing: TimingModel, pre: SimState, post: SimState) -> bool {
    let ready = contenders_of(timing, pre);
    if pre.medium.busy_slots_remaining > 0 {
        e == SlotEvent::Busy { busy_slots_remaining: post.medium.busy_slots_remaining }
    } else if ready.len() == 0 {
        e is Idle
    } else if ready.len() == 1 {
        e == SlotEvent::Success { station_id: ready[0] }
    } else {
        e matches SlotEvent::Collision { station_ids } && station_ids@ == ready
    }
}

/// `f` is the frame of the slot that starts from `pre` and ends in `post`.
pub open spec fn frame_matches(f: TraceFrame, timing: TimingModel, pre: SimState, post: SimState) -> bool {
    &&& f.slot == pre.next_slot
    &&& f.medium_busy == post.medium.is_busy_spec()
    &&& f.medium_busy_slots_remaining == post.medium.busy_slots_remaining
    &&& f.idle_slots == post.medium.idle_slots
    &&& event_matches(f.event, timing, pre, post)
    &&& snapshots_match(f.stations@, post.stations)
    &&& progress_matches(f.progress, post.stations, post.collision_events, post.next_slot)
}

/// The sizes a run can hold without overflow: stations fit a `u32`, and stations times
/// slots fit a `u64`.
pub open spec fn scenario_fits(scenario: Scenario) -> bool {
    &&& scenario.users_spec() <= u32::MAX
    &&& scenario.users_spec() * scenario.timing.total_slots <= u64::MAX
}

impl DcfSimulation {
    spec fn state(&self) -> SimState {
        SimState {
            medium: self.medium,
            stations: self.stations@,
            collision_events: self.collision_events,
            next_slot: self.next_slot,
        }
    }

    fn new(scenario: &Scenario) -> (result: Result<Self, SimError>)
        requires
            scenario_fits(*scenario),
        ensures
            match result {
                Ok(sim) => {
                    &&& scenario_error(*scenario) is None
                    &&& initial_state(*scenario, sim.state())
                    &&& state_invariant(*scenario, sim.state())
                    &&& sim.timing == (TimingModel { config: scenario.timing })
                },
                Err(e) => scenario_error(*scenario) == Some(e),
            },
    {
        match validate_scenario(scenario) {
            Err(e) => return Err(e),
            Ok(()) => {},
        }
        let timing = TimingModel::new(scenario.timing);
        let mut rng = seeded_rng(scenario.seed);
        let mut requested: Ghost<Seq<u32>> = Ghost(Seq::empty());
        let stations = build_stations(scenario, &mut rng, timing.defer_slots(), &mut requested);
        let sim = Self {
            timing,
            rng,
            medium: MediumState::idle(),
            stations,
            collision_events: 0,
            next_slot: 0,
        };
        proof {
            lemma_roster_valid(scenario.classes@, scenario.window.cw_max);
            lemma_initial_invariant(*scenario, sim.state());
        }
        Ok(sim)
    }

    fn step(&mut self, Ghost(scenario): Ghost<Scenario>) -> (frame: Option<TraceFrame>)
        requires
            state_invariant(scenario, old(self).state()),
            old(self).timing == (TimingModel { config: scenario.timing }),
            old(self).stations@.len() <= u32::MAX,
            old(self).stations@.len() * scenario.timing.total_slots <= u64::MAX,
        ensures
            final(self).timing == old(self).timing,
            old(self).next_slot >= scenario.timing.total_slots ==> frame is None && final(self).state()
                == old(self).state(),
            old(self).next_slot < scenario.timing.total_slots ==> {
                &&& frame matches Some(f)
                &&& step_ok(final(self).timing, old(self).state(), final(self).state())
                &&& frame_matches(f, final(self).timing, old(self).state(), final(self).state())
                &&& state_invariant(scenario, final(self).state())
            },
    {
        if self.next_slot >= self.timing.config.total_slots {
            return None;
        }
        let ghost pre = self.state();
        let ghost t = self.timing;
        proof {
            lemma_contention_ok(scenario, pre);
            super::invariants::lemma_total_nonneg_successes(pre.stations);
        }
        let slot = self.next_slot;
        increment_packet_ages(&mut self.stations);
        let ghost mut draws: Seq<u32> = Seq::empty();
        let event = if self.medium.is_busy() {
            self.medium.consume_busy_slot();
            SlotEvent::Busy { busy_slots_remaining: self.medium.busy_slots_remaining }
        } else {
            begin_idle_contention(&mut self.stations, self.timing.defer_slots());
            let contenders = ready_contenders(&self.stations);
            proof {
                lemma_ready_indices(self.stations@, self.stations@.len() as int);
            }
            match resolve_transmission(contenders) {
                TransmissionResolution::Idle => {
                    self.medium.observe_idle_slot();
                    advance_idle_slot(&mut self.stations);
                    SlotEvent::Idle
                },
                TransmissionResolution::Success { station_id } => {
                    self.medium.start_busy(self.timing.busy_slots_after_success());
                    let mut requested: Ghost<Seq<u32>> = Ghost(Seq::empty());
                    let draw = handle_success(&mut self.stations, station_id, &mut self.rng, &mut requested);
                    proof {
                        draws = seq![draw];
                    }
                    SlotEvent::Success { station_id }
                },
                TransmissionResolution::Collision { station_ids } => {
                    self.collision_events += 1;
                    self.medium.start_busy(self.timing.busy_slots_after_collision());
                    let mut requested: Ghost<Seq<u32>> = Ghost(Seq::empty());
                    let collision_draws = handle_collision(&mut self.stations, &mut self.rng, &mut requested);
                    proof {
                        draws = collision_draws@;
                    }
                    SlotEvent::Collision { station_ids }
                },
            }
        };
        let elapsed_slots = slot + 1;
        self.next_slot = elapsed_slots;
        proof {
            assert(draws_valid(t, pre, draws));
            assert(self.state() == next_state(t, pre, draws));
            lemma_step_invariant(scenario, pre, draws);
            lemma_invariant_tallies_fit(scenario, self.state());
        }
        let frame = TraceFrame {
            slot,
            medium_busy: self.medium.is_busy(),
            medium_busy_slots_remaining: self.medium.busy_slots_remaining,
            idle_slots: self.medium.idle_slots,
            event,
            stations: snapshot_stations(&self.stations),
            progress: build_progress_snapshot(&self.stations, self.collision_events, elapsed_slots),
        };
        Some(frame)
    }

    fn into_report(self, scenario: &Scenario) -> (report: SimulationReport)
        requires
            super::metrics::tallies_fit(station_tallies(self.stations@)),
        ensures
            report_matches(
                report,
                scenario.timing.total_slots,
                scenario.timing.payload_bits,
                station_tallies(self.stations@),
                self.collision_events,
            ),
    {
        build_report(scenario, self.stations, self.collision_events)
    }
}

/// The report a complete run `states` of `scenario` ends with.
pub open spec fn run_report_matches(report: SimulationReport, scenario: Scenario, states: Seq<SimState>) -> bool {
    report_matches(
        report,
        scenario.timing.total_slots,
        scenario.timing.payload_bits,
        station_tallies(states.last().stations),
        states.last().collision_events,
    )
}

/// Laws every completed run obeys: each slot carries at most one success or collision,
/// a lone station never collides, and nothing is sent while the DIFS has not elapsed.
pub open spec fn run_laws(report: SimulationReport, scenario: Scenario) -> bool {
    &&& report.aggregate.total_successful_packets + report.aggregate.collision_events
        <= scenario.timing.total_slots
    &&& scenario.users_spec() == 1 ==> report.aggregate.collision_events == 0
    &&& scenario.timing.total_slots <= scenario.timing.difs_slots ==> {
        &&& report.aggregate.total_successful_packets == 0
        &&& report.aggregate.collision_events == 0
    }
}

/// What `run` may return for `scenario`: the first validation error, or the report of a
/// complete run of the DCF model for some counters the generator may hand out.
pub open spec fn run_outcome(result: Result<SimulationReport, SimError>, scenario: Scenario) -> bool {
    match result {
        Err(e) => scenario_error(scenario) == Some(e),
        Ok(report) => {
            &&& scenario_error(scenario) is None
            &&& exists|states: Seq<SimState>|
                run_chain(scenario, states) && #[trigger] run_report_matches(report, scenario, states)
            &&& run_laws(report, scenario)
        },
    }
}

/// Runs `scenario` slot by slot and reports the per-station totals, summed overall and per
/// class. The backoff counters come from rand's `StdRng` seeded with the scenario's seed;
/// the report is that of a complete run of the DCF model for some counters the generator
/// may hand out, each within the window it was drawn for.
pub fn run(scenario: &Scenario) -> (result: Result<SimulationReport, SimError>)
    requires
        scenario_fits(*scenario),
    ensures
        run_outcome(result, *scenario),
{
    let mut simulation = match DcfSimulation::new(scenario) {
        Ok(simulation) => simulation,
        Err(e) => return Err(e),
    };
    let ghost mut states: Seq<SimState> = seq![simulation.state()];
    proof {
        lemma_roster_len(scenario.classes@);
    }
    while simulation.next_slot < scenario.timing.total_slots
        invariant
            chain_prefix(*scenario, states, simulation.next_slot as int),
            states.last() == simulation.state(),
            state_invariant(*scenario, simulation.state()),
            simulation.timing == (TimingModel { config: scenario.timing }),
            roster(scenario.classes@).len() == scenario.users_spec(),
            scenario_fits(*scenario),
        decreases scenario.timing.total_slots - simulation.next_slot,
    {
        let ghost before = states;
        let _ = simulation.step(Ghost(*scenario));
        proof {
            states = states.push(simulation.state());
            assert forall|k: int| 0 <= k < simulation.next_slot implies #[trigger] step_ok(
                simulation.timing,
                states[k],
                states[k + 1],
            ) by {
                if k < simulation.next_slot - 1 {
                    assert(states[k] == before[k] && states[k + 1] == before[k + 1]);
                }
            }
        }
    }
    proof {
        lemma_invariant_tallies_fit(*scenario, simulation.state());
        super::invariants::lemma_total_nonneg_successes(simulation.stations@);
    }
    let ghost final_state = simulation.state();
    let report = simulation.into_report(scenario);
    proof {
        assert(run_chain(*scenario, states));
        assert(run_report_matches(report, *scenario, states));
        assert(run_laws(report, *scenario));
    }
    Ok(report)
}

/// What `trace` may return for `scenario`: the first validation error, or one frame per
/// slot, numbered from zero, each frame one step of the same complete run of the DCF model
/// whose report the trace carries, and that report obeys the run laws.
pub open spec fn trace_outcome(result: Result<SimulationTrace, SimError>, scenario: Scenario) -> bool {
    match result {
        Err(e) => scenario_error(scenario) == Some(e),
        Ok(tr) => {
            &&& scenario_error(scenario) is None
            &&& tr.frames@.len() == scenario.timing.total_slots
            &&& forall|k: int| 0 <= k < tr.frames@.len() ==> (#[trigger] tr.frames@[k]).slot == k
            &&& exists|states: Seq<SimState>|
                run_chain(scenario, states) && #[trigger] run_report_matches(tr.report, scenario, states)
                    && forall|k: int|
                    0 <= k < tr.frames@.len() ==> frame_matches(
                        #[trigger] tr.frames@[k],
                        TimingModel { config: scenario.timing },
                        states[k],
                        states[k + 1],
                    )
            &&& run_laws(tr.report, scenario)
        },
    }
}

/// Runs `scenario` like `run` and records one frame per slot: the medium, the event,
/// every station and the totals so far, for the same complete run as the report.
pub fn trace(scenario: &Scenario) -> (result: Result<SimulationTrace, SimError>)
    requires
        scenario_fits(*scenario),
    ensures
        trace_outcome(result, *scenario),
{
    let mut simulation = match DcfSimulation::new(scenario) {
        Ok(simulation) => simulation,
        Err(e) => return Err(e),
    };
    let mut frames: Vec<TraceFrame> = Vec::new();
    let ghost mut states: Seq<SimState> = seq![simulation.state()];
    proof {
        lemma_roster_len(scenario.classes@);
    }
    while simulation.next_slot < scenario.timing.total_slots
        invariant
            chain_prefix(*scenario, states, simulation.next_slot as int),
            states.last() == simulation.state(),
            forall|k: int| 0 <= k < states.len() ==> (#[trigger] states[k]).next_slot == k,
            frames@.len() == simulation.next_slot,
            forall|k: int|
                0 <= k < frames@.len() ==> frame_matches(
                    #[trigger] frames@[k],
                    simulation.timing,
                    states[k],
                    states[k + 1],
                ),
            state_invariant(*scenario, simulation.state()),
            simulation.timing == (TimingModel { config: scenario.timing }),
            roster(scenario.classes@).len() == scenario.users_spec(),
            scenario_fits(*scenario),
        decreases scenario.timing.total_slots - simulation.next_slot,
    {
        let ghost before = states;
        let ghost before_frames = frames@;
        let frame = simulation.step(Ghost(*scenario));
        match frame {
            Some(frame) => {
                frames.push(frame);
            },
            None => {},
        }
        proof {
            states = states.push(simulation.state());
            assert forall|k: int| 0 <= k < simulation.next_slot implies #[trigger] step_ok(
                simulation.timing,
                states[k],
                states[k + 1],
            ) by {
                if k < simulation.next_slot - 1 {
                    assert(states[k] == before[k] && states[k + 1] == before[k + 1]);
                }
            }
            assert forall|k: int| 0 <= k < frames@.len() implies frame_matches(
                #[trigger] frames@[k],
                simulation.timing,
                states[k],
                states[k + 1],
            ) by {
                if k < frames@.len() - 1 {
                    assert(frames@[k] == before_frames[k]);
                    assert(states[k] == before[k] && states[k + 1] == before[k + 1]);
                }
            }
        }
    }
    proof {
        lemma_invariant_tallies_fit(*scenario, simulation.state());
        super::invariants::lemma_total_nonneg_successes(simulation.stations@);
        assert forall|k: int| 0 <= k < frames@.len() implies (#[trigger] frames@[k]).slot == k by {
            assert(frame_matches(frames@[k], simulation.timing, states[k], states[k + 1]));
        }
    }
    let report = simulation.into_report(scenario);
    let tr = SimulationTrace { frames, report };
    proof {
        assert(run_report_matches(tr.report, *scenario, states));
        assert(forall|k: int|
            0 <= k < tr.frames@.len() ==> frame_matches(
                #[trigger] tr.frames@[k],
                TimingModel { config: scenario.timing },
                states[k],
                states[k + 1],
            ));
    }
    Ok(tr)
}

/// Every roster entry of classes whose minima lie within the cap has its minimum within it.
pub(crate) proof fn lemma_roster_valid(classes: Seq<StationClass>, cw_max: u32)
    requires
        forall|j: int| 0 <= j < classes.len() ==> (#[trigger] classes[j]).cw_min <= cw_max,
    ensures
        forall|k: int| 0 <= k < roster(classes).len() ==> (#[trigger] roster(classes)[k]).cw_min <= cw_max,
    decreases classes.len(),
{
    if classes.len() > 0 {
        let init = classes.drop_last();
        assert forall|j: int| 0 <= j < init.len() implies (#[trigger] init[j]).cw_min <= cw_max by {
            assert(init[j] == classes[j]);
        }
        lemma_roster_valid(init, cw_max);
        let r = roster(classes);
        let ri = roster(init);
        assert forall|k: int| 0 <= k < r.len() implies (#[trigger] r[k]).cw_min <= cw_max by {
            if k < ri.len() {
                assert(r[k] == ri[k]);
            } else {
                assert(r[k] == classes.last());
            }
        }
    }
}

/// What `validate_scenario` returns for `scenario`: the first validation error, if any.
pub open spec fn validation_outcome(check: Result<(), SimError>, scenario: Scenario) -> bool {
    match check {
        Ok(()) => scenario_error(scenario) is None,
        Err(e) => scenario_error(scenario) == Some(e),
    }
}

/// A run fails exactly when validating its scenario fails, and with the same error; a
/// scenario that passes validation always runs to a report.
pub proof fn lemma_run_fails_as_validation(
    scenario: Scenario,
    run_result: Result<SimulationReport, SimError>,
    check: Result<(), SimError>,
)
    requires
        run_outcome(run_result, scenario),
        validation_outcome(check, scenario),
    ensures
        run_result is Err <==> check is Err,
        run_result matches Err(e) ==> check == Err::<(), SimError>(e),
{
}

/// Rejects a scenario that cannot run: no slots, no payload, no window cap, zero-length
/// transmissions, no class, an empty class, or a class minimum above the cap.
pub fn validate_scenario(scenario: &Scenario) -> (result: Result<(), SimError>)
    ensures
        validation_outcome(result, *scenario),
        result is Ok ==> windows_valid(*scenario) && forall|j: int|
            0 <= j < scenario.classes@.len() ==> (#[trigger] scenario.classes@[j]).users > 0,
{
    if scenario.timing.total_slots == 0 {
        return Err(SimError::ZeroTotalSlots);
    }
    if scenario.timing.payload_bits == 0 {
        return Err(SimError::ZeroPayloadBits);
    }
    if scenario.window.cw_max == 0 {
        return Err(SimError::ZeroCwMax);
    }
    if scenario.timing.tx_duration_slots == 0 {
        return Err(SimError::ZeroTxDuration);
    }
    if scenario.classes.len() == 0 {
        return Err(SimError::NoClasses);
    }
    let ghost classes = scenario.classes@;
    let cw_max = scenario.window.cw_max;
    proof {
        assert(classes.skip(0) =~= classes);
    }
    for i in 0..scenario.classes.len()
        invariant
            classes == scenario.classes@,
            cw_max == scenario.window.cw_max,
            scenario_error(*scenario) == class_error(classes, cw_max),
            class_error(classes, cw_max) == class_error(classes.skip(i as int), cw_max),
            forall|j: int| 0 <= j < i ==> (#[trigger] classes[j]).users > 0 && classes[j].cw_min <= cw_max,
    {
        let class = &scenario.classes[i];
        proof {
            assert(classes.skip(i as int)[0] == classes[i as int]);
            assert(classes.skip(i as int).drop_first() =~= classes.skip(i + 1));
        }
        if class.users == 0 {
            return Err(SimError::EmptyClass);
        }
        if class.cw_min > cw_max {
            return Err(SimError::CwMinAboveCwMax);
        }
    }
    proof {
        assert(classes.skip(classes.len() as int) =~= Seq::<StationClass>::empty());
    }
    Ok(())
}

/// One station per user, class by class, each with a counter drawn within its class
/// minimum and its DIFS defer started.
fn build_stations(
    scenario: &Scenario,
    rng: &mut StdRng,
    initial_defer_slots: u32,
    requested: &mut Ghost<Seq<u32>>,
) -> (stations: Vec<StationRuntime>)
    requires
        initial_defer_slots == scenario.timing.difs_slots,
        scenario.users_spec() <= u32::MAX,
        old(requested)@.len() == 0,
    ensures
        final(requested)@.len() == stations@.len(),
        forall|k: int| 0 <= k < stations@.len() ==> final(requested)@[k] == (#[trigger] stations@[k]).window.cw_min,
        stations@.len() == roster(scenario.classes@).len(),
        forall|k: int|
            0 <= k < stations@.len() ==> station_initial(
                #[trigger] stations@[k],
                k,
                roster(scenario.classes@)[k],
                scenario.window.cw_max,
                scenario.timing.difs_slots,
            ),
{
    let ghost classes = scenario.classes@;
    let cw_max = scenario.window.cw_max;
    let mut stations: Vec<StationRuntime> = Vec::new();
    proof {
        assert(classes.take(0) =~= Seq::<StationClass>::empty());
        lemma_roster_len(classes);
    }
    for c in 0..scenario.classes.len()
        invariant
            classes == scenario.classes@,
            cw_max == scenario.window.cw_max,
            initial_defer_slots == scenario.timing.difs_slots,
            roster(classes).len() <= u32::MAX,
            stations@.len() == roster(classes.take(c as int)).len(),
            requested@.len() == stations@.len(),
            forall|k: int| 0 <= k < stations@.len() ==> requested@[k] == (#[trigger] stations@[k]).window.cw_min,
            forall|k: int|
                0 <= k < stations@.len() ==> station_initial(
                    #[trigger] stations@[k],
                    k,
                    roster(classes.take(c as int))[k],
                    cw_max,
                    initial_defer_slots,
                ),
    {
        let class = &scenario.classes[c];
        let ghost base = roster(classes.take(c as int));
        let ghost next = roster(classes.take(c + 1));
        proof {
            lemma_roster_take(classes, c as int);
            lemma_roster_len(classes.take(c + 1));
            lemma_roster_prefix_len(classes, c + 1);
        }
        for u in 0..class.users
            invariant
                classes == scenario.classes@,
                class == &scenario.classes@[c as int],
                cw_max == scenario.window.cw_max,
                initial_defer_slots == scenario.timing.difs_slots,
                next == base + Seq::new(class.users as nat, |i: int| classes[c as int]),
                next.len() <= u32::MAX,
                stations@.len() == base.len() + u,
                requested@.len() == stations@.len(),
                forall|k: int| 0 <= k < stations@.len() ==> requested@[k] == (#[trigger] stations@[k]).window.cw_min,
                forall|k: int|
                    0 <= k < stations@.len() ==> station_initial(
                        #[trigger] stations@[k],
                        k,
                        next[k],
                        cw_max,
                        initial_defer_slots,
                    ),
        {
            let id = stations.len();
            let backoff = sample_backoff_unchecked(class.cw_min, rng, requested);
            let mut station = StationRuntime {
                id,
                class_name: class.name.clone(),
                phase: StationPhase::WaitingForMedium,
                cw_min: class.cw_min,
                window: ContentionWindow::new(class.cw_min, cw_max),
                backoff: BackoffState::new(backoff),
                defer_slots_remaining: 0,
                packet_age_slots: 0,
                successful_packets: 0,
                collision_attempts: 0,
                total_delay_slots: 0,
            };
            station.enter_defer(initial_defer_slots);
            stations.push(station);
        }
    }
    proof {
        assert(classes.take(classes.len() as int) =~= classes);
    }
    stations
}

proof fn lemma_roster_prefix_len(classes: Seq<StationClass>, c: int)
    requires
        0 <= c <= classes.len(),
    ensures
        roster(classes.take(c)).len() <= roster(classes).len(),
    decreases classes.len() - c,
{
    if c < classes.len() {
        lemma_roster_take(classes, c);
        lemma_roster_prefix_len(classes, c + 1);
    } else {
        assert(classes.take(c) =~= classes);
    }
}

fn increment_packet_ages(stations: &mut Vec<StationRuntime>)
    requires
        forall|i: int| 0 <= i < old(stations)@.len() ==> (#[trigger] old(stations)@[i]).packet_age_slots < u64::MAX,
    ensures
        final(stations)@ == aged(old(stations)@),
{
    let ghost entry = stations@;
    let n = stations.len();
    for i in 0..n
        invariant
            n == entry.len(),
            stations@.len() == entry.len(),
            forall|j: int| 0 <= j < entry.len() ==> (#[trigger] entry[j]).packet_age_slots < u64::MAX,
            forall|j: int| 0 <= j < i ==> #[trigger] stations@[j] == aged(entry)[j],
            forall|j: int| i <= j < entry.len() ==> #[trigger] stations@[j] == entry[j],
    {
        stations[i].packet_age_slots = stations[i].packet_age_slots + 1;
    }
    proof {
        assert(stations@ =~= aged(entry));
    }
}

fn begin_idle_contention(stations: &mut Vec<StationRuntime>, defer_slots: u32)
    ensures
        final(stations)@ == begin_contention(old(stations)@, defer_slots),
{
    let ghost entry = stations@;
    let n = stations.len();
    for i in 0..n
        invariant
            n == entry.len(),
            stations@.len() == entry.len(),
            forall|j: int| 0 <= j < i ==> #[trigger] stations@[j] == begin_contention(entry, defer_slots)[j],
            forall|j: int| i <= j < entry.len() ==> #[trigger] stations@[j] == entry[j],
    {
        if stations[i].phase == StationPhase::WaitingForMedium {
            stations[i].enter_defer(defer_slots);
        }
    }
    proof {
        assert(stations@ =~= begin_contention(entry, defer_slots));
    }
}

fn ready_contenders(stations: &Vec<StationRuntime>) -> (contenders: Vec<usize>)
    ensures
        contenders@ == ready_indices(stations@, stations@.len() as int),
{
    let mut contenders: Vec<usize> = Vec::new();
    for index in 0..stations.len()
        invariant
            contenders@ == ready_indices(stations@, index as int),
    {
        if stations[index].is_ready_to_transmit() {
            contenders.push(index);
        }
    }
    contenders
}

fn advance_idle_slot(stations: &mut Vec<StationRuntime>)
    ensures
        final(stations)@ == idle_advance(old(stations)@),
{
    let ghost entry = stations@;
    let n = stations.len();
    for i in 0..n
        invariant
            n == entry.len(),
            stations@.len() == entry.len(),
            forall|j: int| 0 <= j < i ==> #[trigger] stations@[j] == idle_advance(entry)[j],
            forall|j: int| i <= j < entry.len() ==> #[trigger] stations@[j] == entry[j],
    {
        stations[i].advance_idle_slot();
    }
    proof {
        assert(stations@ =~= idle_advance(entry));
    }
}

/// The winner records its delivery, resets its window and draws a new counter; every
/// other station freezes. Returns the drawn counter.
fn handle_success(
    stations: &mut Vec<StationRuntime>,
    station_id: usize,
    rng: &mut StdRng,
    requested: &mut Ghost<Seq<u32>>,
) -> (draw: u32)
    requires
        old(requested)@.len() == 0,
        station_id < old(stations)@.len(),
        old(stations)@[station_id as int].successful_packets < u64::MAX,
        old(stations)@[station_id as int].total_delay_slots + old(stations)@[station_id as int].packet_age_slots
            <= u64::MAX,
    ensures
        draw <= old(stations)@[station_id as int].window.cw_min,
        final(stations)@ == after_success(old(stations)@, station_id as int, draw),
        final(requested)@ == seq![old(stations)@[station_id as int].window.cw_min],
{
    let ghost entry = stations@;
    let mut winner_draw: u32 = 0;
    let n = stations.len();
    for index in 0..n
        invariant
            n == entry.len(),
            stations@.len() == entry.len(),
            station_id < entry.len(),
            entry[station_id as int].successful_packets < u64::MAX,
            entry[station_id as int].total_delay_slots + entry[station_id as int].packet_age_slots
                <= u64::MAX,
            index > station_id ==> winner_draw <= entry[station_id as int].window.cw_min,
            index <= station_id ==> requested@.len() == 0,
            index > station_id ==> requested@ == seq![entry[station_id as int].window.cw_min],
            forall|j: int|
                0 <= j < index ==> #[trigger] stations@[j] == after_success(
                    entry,
                    station_id as int,
                    winner_draw,
                )[j],
            forall|j: int| index <= j < entry.len() ==> #[trigger] stations@[j] == entry[j],
    {
        if index == station_id {
            stations[index].phase = StationPhase::Transmitting;
            stations[index].successful_packets = stations[index].successful_packets + 1;
            stations[index].total_delay_slots = stations[index].total_delay_slots
                + stations[index].packet_age_slots;
            stations[index].packet_age_slots = 0;
            stations[index].window.reset();
            let cw = stations[index].current_cw();
            let backoff = sample_backoff_unchecked(cw, rng, requested);
            proof {
                assert(cw == entry[station_id as int].window.cw_min);
                assert(requested@ =~= seq![entry[station_id as int].window.cw_min]);
            }
            stations[index].backoff.replace(backoff);
            stations[index].phase = StationPhase::AwaitingResult;
            stations[index].wait_for_medium();
            winner_draw = backoff;
        } else {
            stations[index].freeze_for_busy();
        }
    }
    proof {
        assert(stations@ =~= after_success(entry, station_id as int, winner_draw));
    }
    winner_draw
}

/// Every ready station records the attempt, grows its window and draws a new counter, in
/// station order; every other station freezes. Returns the drawn counters, in that order.
fn handle_collision(
    stations: &mut Vec<StationRuntime>,
    rng: &mut StdRng,
    requested: &mut Ghost<Seq<u32>>,
) -> (draws: Ghost<Seq<u32>>)
    requires
        old(requested)@.len() == 0,
        old(stations)@.len() <= usize::MAX,
        forall|i: int|
            0 <= i < old(stations)@.len() ==> (#[trigger] old(stations)@[i]).collision_attempts < u64::MAX,
    ensures
        draws@.len() == ready_indices(old(stations)@, old(stations)@.len() as int).len(),
        forall|i: int|
            0 <= i < old(stations)@.len() && (#[trigger] old(stations)@[i]).is_ready_spec()
                ==> draws@[ready_indices(old(stations)@, i).len() as int] <= grown_width(
                old(stations)@[i].window.current,
                old(stations)@[i].window.cw_max,
            ),
        final(stations)@ == after_collision(old(stations)@, draws@),
        final(requested)@.len() == draws@.len(),
        forall|i: int|
            0 <= i < old(stations)@.len() && (#[trigger] old(stations)@[i]).is_ready_spec()
                ==> final(requested)@[ready_indices(old(stations)@, i).len() as int] == grown_width(
                old(stations)@[i].window.current,
                old(stations)@[i].window.cw_max,
            ),
{
    let ghost entry = stations@;
    let ghost mut drawn: Seq<u32> = Seq::empty();
    proof {
        lemma_ready_indices(entry, entry.len() as int);
    }
    let n = stations.len();
    for index in 0..n
        invariant
            n == entry.len(),
            stations@.len() == entry.len(),
            entry.len() <= usize::MAX,
            forall|i: int| 0 <= i < entry.len() ==> (#[trigger] entry[i]).collision_attempts < u64::MAX,
            drawn.len() == ready_indices(entry, index as int).len(),
            requested@.len() == drawn.len(),
            forall|i: int|
                0 <= i < index && (#[trigger] entry[i]).is_ready_spec() ==> requested@[ready_indices(
                    entry,
                    i,
                ).len() as int] == grown_width(entry[i].window.current, entry[i].window.cw_max),
            forall|i: int|
                0 <= i < index && (#[trigger] entry[i]).is_ready_spec() ==> drawn[ready_indices(
                    entry,
                    i,
                ).len() as int] <= grown_width(entry[i].window.current, entry[i].window.cw_max),
            forall|j: int|
                0 <= j < index ==> #[trigger] stations@[j] == if entry[j].is_ready_spec() {
                    super::model::collision_update(entry[j], drawn[ready_indices(entry, j).len() as int])
                } else {
                    entry[j].freeze_for_busy_spec()
                },
            forall|j: int| index <= j < entry.len() ==> #[trigger] stations@[j] == entry[j],
    {
        proof {
            lemma_ready_indices(entry, index as int);
        }
        if stations[index].is_ready_to_transmit() {
            stations[index].phase = StationPhase::Transmitting;
            stations[index].phase = StationPhase::CollisionRecovery;
            stations[index].collision_attempts = stations[index].collision_attempts + 1;
            stations[index].window.increase_binary_exponential();
            let cw = stations[index].current_cw();
            let backoff = sample_backoff_unchecked(cw, rng, requested);
            stations[index].backoff.replace(backoff);
            stations[index].wait_for_medium();
            proof {
                drawn = drawn.push(backoff);
            }
        } else {
            stations[index].freeze_for_busy();
        }
    }
    proof {
        assert(stations@ =~= after_collision(entry, drawn));
    }
    Ghost(drawn)
}

/// A backoff counter drawn from `0..=cw`; every window, zero included, is accepted.
pub fn sample_backoff(cw: u32, rng: &mut StdRng) -> (result: Result<u32, SimError>)
    ensures
        result matches Ok(value) && value <= cw,
{
    let mut requested: Ghost<Seq<u32>> = Ghost(Seq::empty());
    Ok(sample_backoff_unchecked(cw, rng, &mut requested))
}

/// A backoff counter drawn from `0..=cw`; `requested` records the bound handed to the
/// generator.
fn sample_backoff_unchecked(cw: u32, rng: &mut StdRng, requested: &mut Ghost<Seq<u32>>) -> (value: u32)
    ensures
        value <= cw,
        final(requested)@ == old(requested)@.push(cw),
{
    let value = sample_up_to(cw, rng);
    *requested = Ghost((*requested)@.push(cw));
    value
}

fn snapshot_stations(stations: &Vec<StationRuntime>) -> (snapshots: Vec<StationTraceSnapshot>)
    ensures
        snapshots_match(snapshots@, stations@),
{
    let mut snapshots: Vec<StationTraceSnapshot> = Vec::new();
    for i in 0..stations.len()
        invariant
            snapshots@.len() == i,
            forall|j: int| 0 <= j < i ==> snapshot_matches(#[trigger] snapshots@[j], stations@[j]),
    {
        let station = &stations[i];
        snapshots.push(
            StationTraceSnapshot {
                id: station.id,
                class_name: station.class_name.clone(),
                phase: station.phase,
                current_cw: station.current_cw(),
                backoff_counter: station.backoff.counter,
                frozen_backoff_counter: station.backoff.frozen_counter,
                defer_slots_remaining: station.defer_slots_remaining,
                packet_age_slots: station.packet_age_slots,
                successful_packets: station.successful_packets,
                collision_attempts: station.collision_attempts,
            },
        );
    }
    snapshots
}

fn build_progress_snapshot(stations: &Vec<StationRuntime>, collision_events: u64, elapsed_slots: u64) -> (
    progress: TraceProgressSnapshot)
    requires
        super::metrics::tallies_fit(station_tallies(stations@)),
    ensures
        progress_matches(progress, stations@, collision_events, elapsed_slots),
{
    let tallies = tally_stations(stations);
    let (total_successful_packets, total_delay_slots) = sum_tallies(&tallies);
    let per_class = group_by_class(&tallies);
    let (zero_success_stations, max_station_successes) = success_extremes(&tallies);
    TraceProgressSnapshot {
        elapsed_slots,
        aggregate: AggregateReport { total_successful_packets, collision_events, total_delay_slots },
        per_class,
        zero_success_stations,
        max_station_successes,
    }
}

/// The number of stations that delivered nothing, and the most any one delivered.
fn success_extremes(tallies: &Vec<StationTally>) -> (extremes: (u32, u64))
    requires
        tallies@.len() <= u32::MAX,
    ensures
        extremes.0 == zero_success_count(tallies@),
        extremes.1 == max_successes(tallies@),
{
    let ghost ts = tallies@;
    let mut zero: u32 = 0;
    let mut most: u64 = 0;
    for i in 0..tallies.len()
        invariant
            ts == tallies@,
            ts.len() <= u32::MAX,
            zero == zero_success_count(ts.take(i as int)),
            zero <= i,
            most == max_successes(ts.take(i as int)),
    {
        proof {
            assert(ts.take(i + 1).drop_last() =~= ts.take(i as int));
            assert(ts.take(i + 1).last() == ts[i as int]);
        }
        if tallies[i].successful_packets == 0 {
            zero = zero + 1;
        }
        if most < tallies[i].successful_packets {
            most = tallies[i].successful_packets;
        }
    }
    proof {
        assert(ts.take(ts.len() as int) =~= ts);
    }
    (zero, most)
}

} // verus!
