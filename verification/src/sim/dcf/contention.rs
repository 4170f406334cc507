use vstd::prelude::*;

use crate::domain::report::SimulationReport;
use crate::domain::scenario::{Scenario, StationClass};

use super::engine::{
    class_error, frame_matches, lemma_roster_valid, run_outcome, run_report_matches, scenario_error, scenario_fits,
    snapshot_matches, trace_outcome, SimulationTrace, SlotEvent,
};
use super::invariants::{
    lemma_initial_invariant, lemma_roster_len, lemma_step_invariant, lemma_total_congruent,
    lemma_total_nonneg_successes,
};
use super::metrics::{
    field_total, field_value, groups_total, lemma_classes_add_up, lemma_totals_take, station_tallies, StationTally,
    TallyField,
};
use super::model::{
    after_collision, after_success, aged, begin_contention, contention_view, contenders_of, draws_valid, next_state, ready_indices, roster, run_chain, state_invariant, step_ok, windows_valid, SimState,
};
use super::phase::StationPhase;
use super::station::StationRuntime;
use super::timing::TimingModel;

verus! {

/// What a station keeps between slots about waiting: a deferring station's packet age
/// plus the defer still ahead covers the DIFS, a counting-down station has waited the
/// DIFS, and every packet it delivered waited more than the DIFS.
pub open spec fn wait_ok(st: StationRuntime, difs: u32) -> bool {
    &&& (st.phase == StationPhase::Defer ==> st.packet_age_slots + st.defer_slots_remaining >= difs)
    &&& (st.phase == StationPhase::BackoffCountdown ==> st.packet_age_slots >= difs)
    &&& st.total_delay_slots >= (difs + 1) * st.successful_packets
}

/// `wait_ok` one slot later, once packets have aged and waiting stations have started
/// their defer.
spec fn wait_ok_contending(st: StationRuntime, difs: u32) -> bool {
    &&& (st.phase == StationPhase::Defer ==> st.packet_age_slots + st.defer_slots_remaining >= difs + 1)
    &&& (st.phase == StationPhase::BackoffCountdown ==> st.packet_age_slots >= difs + 1)
    &&& st.total_delay_slots >= (difs + 1) * st.successful_packets
}

pub open spec fn collision_total(stations: Seq<StationRuntime>) -> int {
    field_total(station_tallies(stations), TallyField::Collisions)
}

/// What a run keeps about contention: every station waits as `wait_ok` says and keeps
/// its position as its id, and every collision event counted at least two attempts.
pub open spec fn contention_invariant(difs: u32, s: SimState) -> bool {
    &&& forall|i: int| 0 <= i < s.stations.len() ==> wait_ok(#[trigger] s.stations[i], difs)
    &&& forall|i: int| 0 <= i < s.stations.len() ==> (#[trigger] s.stations[i]).id == i
    &&& collision_total(s.stations) >= 2 * s.collision_events
}

proof fn lemma_collisions_congruent(a: Seq<StationRuntime>, b: Seq<StationRuntime>)
    requires
        a.len() == b.len(),
        forall|i: int| 0 <= i < a.len() ==> (#[trigger] a[i]).collision_attempts == b[i].collision_attempts,
    ensures
        collision_total(a) == collision_total(b),
{
    let ta = station_tallies(a);
    let tb = station_tallies(b);
    assert forall|i: int| 0 <= i < ta.len() implies field_value(#[trigger] ta[i], TallyField::Collisions)
        == field_value(tb[i], TallyField::Collisions) by {
        assert(a[i].collision_attempts == b[i].collision_attempts);
    }
    lemma_total_congruent(ta, tb, TallyField::Collisions);
}

/// A collision adds one attempt for each station that sent.
proof fn lemma_collision_count(c: Seq<StationRuntime>, draws: Seq<u32>, k: int)
    requires
        0 <= k <= c.len(),
        forall|i: int| 0 <= i < c.len() ==> (#[trigger] c[i]).collision_attempts < u64::MAX,
    ensures
        field_total(station_tallies(after_collision(c, draws)).take(k), TallyField::Collisions) == field_total(
            station_tallies(c).take(k),
            TallyField::Collisions,
        ) + ready_indices(c, k).len(),
    decreases k,
{
    let ta = station_tallies(after_collision(c, draws));
    let tc = station_tallies(c);
    if k == 0 {
        assert(ta.take(0) =~= Seq::<StationTally>::empty());
        assert(tc.take(0) =~= Seq::<StationTally>::empty());
    } else {
        lemma_collision_count(c, draws, k - 1);
        lemma_totals_take(ta, k - 1, Seq::empty(), TallyField::Collisions);
        lemma_totals_take(tc, k - 1, Seq::empty(), TallyField::Collisions);
        assert(c[k - 1].collision_attempts < u64::MAX);
    }
}

proof fn lemma_contending_stations(difs: u32, s: SimState)
    requires
        forall|i: int| 0 <= i < s.stations.len() ==> wait_ok(#[trigger] s.stations[i], difs),
        forall|i: int| 0 <= i < s.stations.len() ==> (#[trigger] s.stations[i]).packet_age_slots < u64::MAX,
    ensures
        forall|i: int|
            0 <= i < s.stations.len() ==> {
                let c = #[trigger] begin_contention(aged(s.stations), difs)[i];
                &&& wait_ok_contending(c, difs)
                &&& c.packet_age_slots == s.stations[i].packet_age_slots + 1
                &&& c.total_delay_slots == s.stations[i].total_delay_slots
                &&& c.successful_packets == s.stations[i].successful_packets
                &&& c.collision_attempts == s.stations[i].collision_attempts
            },
{
    assert forall|i: int| 0 <= i < s.stations.len() implies {
        let c = #[trigger] begin_contention(aged(s.stations), difs)[i];
        &&& wait_ok_contending(c, difs)
        &&& c.packet_age_slots == s.stations[i].packet_age_slots + 1
        &&& c.total_delay_slots == s.stations[i].total_delay_slots
        &&& c.successful_packets == s.stations[i].successful_packets
        &&& c.collision_attempts == s.stations[i].collision_attempts
    } by {
        assert(wait_ok(s.stations[i], difs));
        assert(aged(s.stations)[i].packet_age_slots == s.stations[i].packet_age_slots + 1);
    }
}

/// Every slot keeps the contention invariant.
pub proof fn lemma_contention_step(scenario: Scenario, s: SimState, draws: Seq<u32>)
    requires
        state_invariant(scenario, s),
        s.next_slot < scenario.timing.total_slots,
        s.stations.len() <= usize::MAX,
        contention_invariant(scenario.timing.difs_slots, s),
    ensures
        contention_invariant(
            scenario.timing.difs_slots,
            next_state(TimingModel { config: scenario.timing }, s, draws),
        ),
{
    let t = TimingModel { config: scenario.timing };
    let difs = scenario.timing.difs_slots;
    let r = roster(scenario.classes@);
    let post = next_state(t, s, draws);
    let a = aged(s.stations);
    let c = begin_contention(a, difs);
    lemma_total_nonneg_successes(s.stations);
    assert forall|i: int| 0 <= i < s.stations.len() implies {
        &&& (#[trigger] s.stations[i]).packet_age_slots < u64::MAX
        &&& s.stations[i].total_delay_slots + s.stations[i].packet_age_slots < u64::MAX
        &&& s.stations[i].successful_packets < u64::MAX
        &&& s.stations[i].collision_attempts < u64::MAX
    } by {
        assert(super::model::station_ok(s.stations[i], r[i], scenario.window.cw_max, s.next_slot));
    }
    lemma_contending_stations(difs, s);
    assert(c == contention_view(t, s));
    let ready = contenders_of(t, s);
    super::invariants::lemma_ready_indices(c, c.len() as int);
    if s.medium.busy_slots_remaining > 0 {
        assert forall|i: int| 0 <= i < post.stations.len() implies wait_ok(#[trigger] post.stations[i], difs) by {
            assert(wait_ok(s.stations[i], difs));
        }
        lemma_collisions_congruent(a, s.stations);
    } else if ready.len() == 0 {
        assert forall|i: int| 0 <= i < post.stations.len() implies wait_ok(#[trigger] post.stations[i], difs) by {
            assert(wait_ok_contending(c[i], difs));
            assert(post.stations[i] == c[i].advance_idle_slot_spec());
        }
        lemma_collisions_congruent(post.stations, s.stations);
    } else if ready.len() == 1 {
        let w = ready[0] as int;
        assert(c[w].is_ready_spec());
        assert forall|i: int| 0 <= i < post.stations.len() implies wait_ok(#[trigger] post.stations[i], difs) by {
            let ci = c[i];
            assert(wait_ok_contending(ci, difs));
            if i == w {
                let m = difs + 1;
                let n = ci.successful_packets as int;
                assert(m * (n + 1) == m * n + m) by (nonlinear_arith);
            }
        }
        assert forall|i: int| 0 <= i < post.stations.len() implies (#[trigger] post.stations[i]).collision_attempts
            == s.stations[i].collision_attempts by {
            assert(c[i].collision_attempts == s.stations[i].collision_attempts);
        }
        lemma_collisions_congruent(post.stations, s.stations);
    } else {
        assert forall|i: int| 0 <= i < post.stations.len() implies wait_ok(#[trigger] post.stations[i], difs) by {
            assert(wait_ok_contending(c[i], difs));
        }
        assert forall|i: int| 0 <= i < c.len() implies (#[trigger] c[i]).collision_attempts < u64::MAX by {
            assert(c[i].collision_attempts == s.stations[i].collision_attempts);
        }
        lemma_collision_count(c, draws, c.len() as int);
        assert(station_tallies(after_collision(c, draws)).take(c.len() as int) =~= station_tallies(post.stations));
        assert(station_tallies(c).take(c.len() as int) =~= station_tallies(c));
        lemma_collisions_congruent(c, s.stations);
    }
}

proof fn lemma_class_error_none(classes: Seq<StationClass>, cw_max: u32)
    requires
        class_error(classes, cw_max) is None,
    ensures
        forall|j: int| 0 <= j < classes.len() ==> (#[trigger] classes[j]).cw_min <= cw_max && classes[j].users > 0,
    decreases classes.len(),
{
    if classes.len() > 0 {
        lemma_class_error_none(classes.drop_first(), cw_max);
        assert forall|j: int| 0 <= j < classes.len() implies (#[trigger] classes[j]).cw_min <= cw_max
            && classes[j].users > 0 by {
            if j > 0 {
                assert(classes[j] == classes.drop_first()[j - 1]);
            }
        }
    }
}

/// The first `k + 1` states of a complete run of a valid scenario keep the run invariant
/// and the contention invariant.
pub(crate) proof fn lemma_chain_invariants(scenario: Scenario, states: Seq<SimState>, k: int)
    requires
        run_chain(scenario, states),
        scenario_error(scenario) is None,
        scenario_fits(scenario),
        0 <= k <= scenario.timing.total_slots,
    ensures
        states[k].next_slot == k,
        state_invariant(scenario, states[k]),
        contention_invariant(scenario.timing.difs_slots, states[k]),
    decreases k,
{
    let difs = scenario.timing.difs_slots;
    if k == 0 {
        lemma_class_error_none(scenario.classes@, scenario.window.cw_max);
        assert(windows_valid(scenario));
        lemma_roster_valid(scenario.classes@, scenario.window.cw_max);
        lemma_initial_invariant(scenario, states[0]);
        let s = states[0];
        let r = roster(scenario.classes@);
        assert forall|i: int| 0 <= i < s.stations.len() implies wait_ok(#[trigger] s.stations[i], difs) by {
            assert(super::model::station_initial(s.stations[i], i, r[i], scenario.window.cw_max, difs));
        }
        assert(station_tallies(s.stations) =~= station_tallies(s.stations));
        super::metrics::lemma_total_nonneg(station_tallies(s.stations), TallyField::Collisions);
    } else {
        lemma_chain_invariants(scenario, states, k - 1);
        let t = TimingModel { config: scenario.timing };
        let j = k - 1;
        let s = states[j];
        assert(step_ok(t, states[j], states[j + 1]));
        assert(states[j + 1] == states[k]);
        let draws = choose|draws: Seq<u32>| draws_valid(t, s, draws) && states[k] == next_state(t, s, draws);
        lemma_roster_len(scenario.classes@);
        lemma_step_invariant(scenario, s, draws);
        lemma_contention_step(scenario, s, draws);
    }
}

proof fn lemma_delay_total(ts: Seq<StationTally>, m: int)
    requires
        m >= 0,
        forall|i: int| 0 <= i < ts.len() ==> (#[trigger] ts[i]).total_delay_slots >= m * ts[i].successful_packets,
    ensures
        field_total(ts, TallyField::Delay) >= m * field_total(ts, TallyField::Successes),
    decreases ts.len(),
{
    if ts.len() > 0 {
        lemma_delay_total(ts.drop_last(), m);
        let a = field_total(ts.drop_last(), TallyField::Successes);
        let b = ts.last().successful_packets as int;
        assert(m * (a + b) == m * a + m * b) by (nonlinear_arith);
        assert(ts.last() == ts[ts.len() - 1]);
    }
}

/// Side laws of every completed run: the class rows count every station of the scenario
/// once; each collision involves at least two stations, so the collision attempts the
/// classes report add up to at least twice the collision events; and each delivered packet
/// waited at least the DIFS and its own slot, so the delay reported is at least `difs + 1`
/// slots per success.
pub proof fn lemma_run_contention_laws(report: SimulationReport, scenario: Scenario)
    requires
        scenario_fits(scenario),
        run_outcome(Ok(report), scenario),
    ensures
        groups_total(report.per_class@, TallyField::Stations) == scenario.users_spec(),
        groups_total(report.per_class@, TallyField::Collisions) >= 2 * report.aggregate.collision_events,
        report.aggregate.total_delay_slots >= (scenario.timing.difs_slots + 1)
            * report.aggregate.total_successful_packets,
{
    let states = choose|states: Seq<SimState>|
        run_chain(scenario, states) && #[trigger] run_report_matches(report, scenario, states);
    let n = scenario.timing.total_slots as int;
    lemma_chain_invariants(scenario, states, n);
    let last = states[n];
    assert(states.last() == last);
    let ts = station_tallies(last.stations);
    lemma_classes_add_up(report.per_class@, ts, TallyField::Collisions);
    lemma_classes_add_up(report.per_class@, ts, TallyField::Stations);
    super::metrics::lemma_station_count(ts);
    lemma_roster_len(scenario.classes@);
    assert forall|i: int| 0 <= i < ts.len() implies (#[trigger] ts[i]).total_delay_slots
        >= (scenario.timing.difs_slots + 1) * ts[i].successful_packets by {
        assert(wait_ok(last.stations[i], scenario.timing.difs_slots));
    }
    lemma_delay_total(ts, scenario.timing.difs_slots + 1);
}

/// Some class of `classes` is named `name`.
pub open spec fn class_named(classes: Seq<StationClass>, name: Seq<char>) -> bool {
    exists|j: int| 0 <= j < classes.len() && (#[trigger] classes[j]).name@ == name
}

proof fn lemma_roster_names(classes: Seq<StationClass>, name: Seq<char>)
    requires
        forall|j: int| 0 <= j < classes.len() ==> (#[trigger] classes[j]).users > 0,
    ensures
        (exists|i: int| 0 <= i < roster(classes).len() && (#[trigger] roster(classes)[i]).name@ == name)
            <==> class_named(classes, name),
    decreases classes.len(),
{
    if classes.len() > 0 {
        let init = classes.drop_last();
        assert forall|j: int| 0 <= j < init.len() implies (#[trigger] init[j]).users > 0 by {
            assert(init[j] == classes[j]);
        }
        lemma_roster_names(init, name);
        let r = roster(classes);
        let ri = roster(init);
        let last = classes.last();
        assert(r == ri + Seq::new(last.users as nat, |i: int| last));
        if class_named(classes, name) {
            let j = choose|j: int| 0 <= j < classes.len() && (#[trigger] classes[j]).name@ == name;
            if j < init.len() {
                assert(init[j] == classes[j]);
                assert(class_named(init, name));
                let i = choose|i: int| 0 <= i < ri.len() && (#[trigger] ri[i]).name@ == name;
                assert(r[i] == ri[i]);
            } else {
                assert(classes[j] == last);
                assert(last.users > 0);
                assert(r[ri.len() as int] == last);
            }
        }
        if exists|i: int| 0 <= i < r.len() && (#[trigger] r[i]).name@ == name {
            let i = choose|i: int| 0 <= i < r.len() && (#[trigger] r[i]).name@ == name;
            if i < ri.len() {
                assert(r[i] == ri[i]);
                let j = choose|j: int| 0 <= j < init.len() && (#[trigger] init[j]).name@ == name;
                assert(init[j] == classes[j]);
            } else {
                assert(r[i] == last);
                assert(classes[classes.len() - 1] == last);
            }
        }
    }
}

proof fn lemma_class_present(ts: Seq<StationTally>, name: Seq<char>)
    ensures
        super::metrics::class_total(ts, name, TallyField::Stations) > 0 <==> exists|i: int|
            0 <= i < ts.len() && (#[trigger] ts[i]).class_name@ == name,
    decreases ts.len(),
{
    if ts.len() > 0 {
        let init = ts.drop_last();
        lemma_class_present(init, name);
        super::metrics::lemma_class_total_bounded(init, name, TallyField::Stations);
        if exists|i: int| 0 <= i < ts.len() && (#[trigger] ts[i]).class_name@ == name {
            let i = choose|i: int| 0 <= i < ts.len() && (#[trigger] ts[i]).class_name@ == name;
            if i < init.len() {
                assert(init[i] == ts[i]);
            }
        }
        if exists|i: int| 0 <= i < init.len() && (#[trigger] init[i]).class_name@ == name {
            let i = choose|i: int| 0 <= i < init.len() && (#[trigger] init[i]).class_name@ == name;
            assert(init[i] == ts[i]);
        }
    }
}

/// A report has one class row for each class name of its scenario and no other row.
pub proof fn lemma_report_class_names(report: SimulationReport, scenario: Scenario)
    requires
        scenario_fits(scenario),
        run_outcome(Ok(report), scenario),
    ensures
        forall|name: Seq<char>| #[trigger]
            super::metrics::has_group(report.per_class@, name) <==> class_named(scenario.classes@, name),
{
    let states = choose|states: Seq<SimState>|
        run_chain(scenario, states) && #[trigger] run_report_matches(report, scenario, states);
    let n = scenario.timing.total_slots as int;
    lemma_chain_invariants(scenario, states, n);
    let last = states[n];
    assert(states.last() == last);
    let ts = station_tallies(last.stations);
    let r = roster(scenario.classes@);
    lemma_class_error_none(scenario.classes@, scenario.window.cw_max);
    assert forall|name: Seq<char>| #[trigger]
        super::metrics::has_group(report.per_class@, name) <==> class_named(scenario.classes@, name) by {
        lemma_class_present(ts, name);
        lemma_roster_names(scenario.classes@, name);
        if exists|i: int| 0 <= i < ts.len() && (#[trigger] ts[i]).class_name@ == name {
            let i = choose|i: int| 0 <= i < ts.len() && (#[trigger] ts[i]).class_name@ == name;
            assert(super::model::station_ok(last.stations[i], r[i], scenario.window.cw_max, last.next_slot));
        }
        if exists|i: int| 0 <= i < r.len() && (#[trigger] r[i]).name@ == name {
            let i = choose|i: int| 0 <= i < r.len() && (#[trigger] r[i]).name@ == name;
            assert(super::model::station_ok(last.stations[i], r[i], scenario.window.cw_max, last.next_slot));
            assert(ts[i].class_name == last.stations[i].class_name);
        }
    }
}

/// A report of the two-class scenario "lower-cw" then "higher-cw" holds exactly two rows,
/// "higher-cw" first, as the names sort.
pub proof fn lemma_mixed_report_rows(report: SimulationReport, scenario: Scenario)
    requires
        scenario_fits(scenario),
        run_outcome(Ok(report), scenario),
        scenario.classes@.len() == 2,
        scenario.classes@[0].name@ == "lower-cw"@,
        scenario.classes@[1].name@ == "higher-cw"@,
    ensures
        report.per_class@.len() == 2,
        report.per_class@[0].class_name@ == "higher-cw"@,
        report.per_class@[1].class_name@ == "lower-cw"@,
{
    reveal_strlit("lower-cw");
    reveal_strlit("higher-cw");
    let l = "lower-cw"@;
    let h = "higher-cw"@;
    let g = report.per_class@;
    let states = choose|states: Seq<SimState>|
        run_chain(scenario, states) && #[trigger] run_report_matches(report, scenario, states);
    lemma_report_class_names(report, scenario);
    assert(l[0] == 'l' && h[0] == 'h');
    assert(l != h);
    assert(crate::text::chars_lt(h, l));
    assert(!crate::text::chars_lt(l, h));
    crate::text::lemma_chars_lt_irreflexive(l);
    crate::text::lemma_chars_lt_irreflexive(h);
    assert forall|j: int| 0 <= j < g.len() implies (#[trigger] g[j]).class_name@ == l || g[j].class_name@ == h by {
        assert(super::metrics::has_group(g, g[j].class_name@));
        assert(class_named(scenario.classes@, g[j].class_name@));
    }
    assert(class_named(scenario.classes@, l));
    assert(class_named(scenario.classes@, h));
    assert(super::metrics::has_group(g, l));
    assert(super::metrics::has_group(g, h));
    let jl = choose|j: int| 0 <= j < g.len() && (#[trigger] g[j]).class_name@ == l;
    let jh = choose|j: int| 0 <= j < g.len() && (#[trigger] g[j]).class_name@ == h;
    assert(jl != jh);
    assert(g.len() >= 2);
    if g.len() >= 3 {
        assert(crate::text::chars_lt(g[0].class_name@, g[1].class_name@));
        assert(crate::text::chars_lt(g[1].class_name@, g[2].class_name@));
        assert(g[1].class_name@ == l);
        assert(g[1].class_name@ == h);
    }
    assert(crate::text::chars_lt(g[0].class_name@, g[1].class_name@));
}

/// Every frame of a trace shows the slots elapsed so far and every station of the
/// scenario in order, each with its position as its id and a backoff counter within its
/// current window, which lies within the cap.
pub proof fn lemma_trace_frames(tr: SimulationTrace, scenario: Scenario)
    requires
        scenario_fits(scenario),
        trace_outcome(Ok(tr), scenario),
    ensures
        forall|i: int|
            0 <= i < tr.frames@.len() ==> {
                let f = #[trigger] tr.frames@[i];
                &&& f.progress.elapsed_slots == i + 1
                &&& f.stations@.len() == scenario.users_spec()
                &&& forall|j: int|
                    0 <= j < f.stations@.len() ==> {
                        let st = #[trigger] f.stations@[j];
                        &&& st.id == j
                        &&& st.backoff_counter <= st.current_cw <= scenario.window.cw_max
                    }
            },
{
    let t = TimingModel { config: scenario.timing };
    let states = choose|states: Seq<SimState>|
        run_chain(scenario, states) && #[trigger] run_report_matches(tr.report, scenario, states) && forall|k: int|
            0 <= k < tr.frames@.len() ==> frame_matches(#[trigger] tr.frames@[k], t, states[k], states[k + 1]);
    lemma_roster_len(scenario.classes@);
    assert forall|i: int| 0 <= i < tr.frames@.len() implies {
        let f = #[trigger] tr.frames@[i];
        &&& f.progress.elapsed_slots == i + 1
        &&& f.stations@.len() == scenario.users_spec()
        &&& forall|j: int|
            0 <= j < f.stations@.len() ==> {
                let st = #[trigger] f.stations@[j];
                &&& st.id == j
                &&& st.backoff_counter <= st.current_cw <= scenario.window.cw_max
            }
    } by {
        let f = tr.frames@[i];
        assert(frame_matches(f, t, states[i], states[i + 1]));
        lemma_chain_invariants(scenario, states, i + 1);
        let post = states[i + 1];
        let r = roster(scenario.classes@);
        assert forall|j: int| 0 <= j < f.stations@.len() implies {
            let st = #[trigger] f.stations@[j];
            &&& st.id == j
            &&& st.backoff_counter <= st.current_cw <= scenario.window.cw_max
        } by {
            assert(snapshot_matches(f.stations@[j], post.stations[j]));
            assert(super::model::station_ok(post.stations[j], r[j], scenario.window.cw_max, post.next_slot));
        }
    }
}

/// A success resets the sender's window: in the frame of every successful slot, the
/// sender starts its next packet (age 0) with its window back at its class minimum, so its
/// next collision grows the window from that minimum again.
pub proof fn lemma_trace_success_resets_window(tr: SimulationTrace, scenario: Scenario)
    requires
        scenario_fits(scenario),
        trace_outcome(Ok(tr), scenario),
    ensures
        forall|i: int|
            0 <= i < tr.frames@.len() ==> ((#[trigger] tr.frames@[i]).event matches SlotEvent::Success {
                station_id,
            } ==> {
                &&& station_id < tr.frames@[i].stations@.len()
                &&& tr.frames@[i].stations@[station_id as int].current_cw == roster(
                    scenario.classes@,
                )[station_id as int].cw_min
                &&& tr.frames@[i].stations@[station_id as int].packet_age_slots == 0
            }),
{
    let t = TimingModel { config: scenario.timing };
    let states = choose|states: Seq<SimState>|
        run_chain(scenario, states) && #[trigger] run_report_matches(tr.report, scenario, states) && forall|k: int|
            0 <= k < tr.frames@.len() ==> frame_matches(#[trigger] tr.frames@[k], t, states[k], states[k + 1]);
    lemma_roster_len(scenario.classes@);
    assert forall|i: int| 0 <= i < tr.frames@.len() implies ((#[trigger] tr.frames@[i]).event matches SlotEvent::Success {
        station_id,
    } ==> {
        &&& station_id < tr.frames@[i].stations@.len()
        &&& tr.frames@[i].stations@[station_id as int].current_cw == roster(scenario.classes@)[station_id as int].cw_min
        &&& tr.frames@[i].stations@[station_id as int].packet_age_slots == 0
    }) by {
        let f = tr.frames@[i];
        if let SlotEvent::Success { station_id } = f.event {
            assert(frame_matches(f, t, states[i], states[i + 1]));
            lemma_chain_invariants(scenario, states, i);
            let pre = states[i];
            let post = states[i + 1];
            assert(step_ok(t, states[i], states[i + 1]));
            let draws = choose|draws: Seq<u32>| draws_valid(t, pre, draws) && post == next_state(t, pre, draws);
            let c = contention_view(t, pre);
            let ready = contenders_of(t, pre);
            super::invariants::lemma_ready_indices(c, c.len() as int);
            assert(pre.medium.busy_slots_remaining == 0);
            assert(ready.len() == 1);
            let w = ready[0] as int;
            assert(station_id == ready[0]);
            assert(post.stations == after_success(c, w, draws[0]));
            assert(post.stations[w].window == c[w].window.reset_spec());
            assert(c[w].window == pre.stations[w].window);
            let r = roster(scenario.classes@);
            assert(super::model::station_ok(pre.stations[w], r[w], scenario.window.cw_max, pre.next_slot));
            assert(snapshot_matches(f.stations@[w], post.stations[w]));
        }
    }
}

/// The frames count runs of idle slots: an idle slot shows one more idle slot than the
/// frame before it (the first frame counts from zero, and the count stops at `u32::MAX`),
/// and every busy, successful or colliding slot shows none.
pub proof fn lemma_trace_idle_slots(tr: SimulationTrace, scenario: Scenario)
    requires
        trace_outcome(Ok(tr), scenario),
    ensures
        forall|i: int|
            0 <= i < tr.frames@.len() ==> {
                let f = #[trigger] tr.frames@[i];
                let before: int = if i == 0 { 0 } else { tr.frames@[i - 1].idle_slots as int };
                &&& f.event is Idle ==> f.idle_slots == (if before < u32::MAX { before + 1 } else { before })
                &&& !(f.event is Idle) ==> f.idle_slots == 0
            },
{
    let t = TimingModel { config: scenario.timing };
    let states = choose|states: Seq<SimState>|
        run_chain(scenario, states) && #[trigger] run_report_matches(tr.report, scenario, states) && forall|k: int|
            0 <= k < tr.frames@.len() ==> frame_matches(#[trigger] tr.frames@[k], t, states[k], states[k + 1]);
    assert forall|i: int| 0 <= i < tr.frames@.len() implies {
        let f = #[trigger] tr.frames@[i];
        let before: int = if i == 0 { 0 } else { tr.frames@[i - 1].idle_slots as int };
        &&& f.event is Idle ==> f.idle_slots == (if before < u32::MAX { before + 1 } else { before })
        &&& !(f.event is Idle) ==> f.idle_slots == 0
    } by {
        let f = tr.frames@[i];
        assert(frame_matches(f, t, states[i], states[i + 1]));
        if i == 0 {
            assert(states[0].medium.idle_slots == 0);
        } else {
            let j = i - 1;
            assert(frame_matches(tr.frames@[j], t, states[j], states[j + 1]));
            assert(states[j + 1] == states[i]);
        }
        let pre = states[i];
        let post = states[i + 1];
        assert(step_ok(t, states[i], states[i + 1]));
        let draws = choose|draws: Seq<u32>| draws_valid(t, pre, draws) && post == next_state(t, pre, draws);
    }
}

/// A slot where two or more stations reach zero together is a collision: it is counted
/// once, each sender counts one more attempt, grows its window (`2 * current + 1`, or the
/// cap when that does not fit) and waits for the medium, and every other station that was
/// counting down freezes its counter where it stood and waits too.
pub proof fn lemma_collision_slot(timing: TimingModel, pre: SimState, draws: Seq<u32>, i: int)
    requires
        pre.medium.busy_slots_remaining == 0,
        contenders_of(timing, pre).len() >= 2,
        0 <= i < pre.stations.len(),
        pre.stations[i].collision_attempts < u64::MAX,
        pre.collision_events < u64::MAX,
    ensures
        next_state(timing, pre, draws).collision_events == pre.collision_events + 1,
        next_state(timing, pre, draws).stations.len() == pre.stations.len(),
        contention_view(timing, pre)[i].is_ready_spec() ==> {
            let before = pre.stations[i];
            let after = next_state(timing, pre, draws).stations[i];
            &&& after.collision_attempts == before.collision_attempts + 1
            &&& after.phase == StationPhase::WaitingForMedium
            &&& after.window.cw_min == before.window.cw_min
            &&& after.window.cw_max == before.window.cw_max
            &&& 2 * before.window.current + 1 <= before.window.cw_max ==> after.window.current == 2
                * before.window.current + 1
            &&& 2 * before.window.current + 1 > before.window.cw_max ==> after.window.current
                == before.window.cw_max
        },
        !contention_view(timing, pre)[i].is_ready_spec() && pre.stations[i].phase == StationPhase::BackoffCountdown
            ==> {
            let before = pre.stations[i];
            let after = next_state(timing, pre, draws).stations[i];
            &&& after.backoff.counter == before.backoff.counter
            &&& after.backoff.frozen_counter == Some(before.backoff.counter)
            &&& after.phase == StationPhase::WaitingForMedium
            &&& after.window == before.window
        },
{
    let c = contention_view(timing, pre);
    let post = next_state(timing, pre, draws);
    assert(post.stations == after_collision(c, draws));
    assert(c[i].window == pre.stations[i].window);
    assert(c[i].collision_attempts == pre.stations[i].collision_attempts);
    super::window::lemma_growth_rule(c[i].window);
}

/// A slot where exactly one station reaches zero is a success: the sender delivers its
/// packet (one more success, its age added to its delay), starts a fresh packet with its
/// window back at its minimum and waits for the medium; every other station that was
/// counting down freezes its counter where it stood; no collision is counted.
pub proof fn lemma_success_slot(timing: TimingModel, pre: SimState, draws: Seq<u32>, w: int)
    requires
        pre.medium.busy_slots_remaining == 0,
        contenders_of(timing, pre).len() == 1,
        contenders_of(timing, pre)[0] == w,
        0 <= w < pre.stations.len(),
        pre.stations[w].successful_packets < u64::MAX,
        pre.stations[w].total_delay_slots + pre.stations[w].packet_age_slots + 1 <= u64::MAX,
    ensures
        next_state(timing, pre, draws).collision_events == pre.collision_events,
        next_state(timing, pre, draws).stations.len() == pre.stations.len(),
        ({
            let before = pre.stations[w];
            let after = next_state(timing, pre, draws).stations[w];
            &&& after.successful_packets == before.successful_packets + 1
            &&& after.total_delay_slots == before.total_delay_slots + before.packet_age_slots + 1
            &&& after.packet_age_slots == 0
            &&& after.window.current == before.window.cw_min
            &&& after.window.cw_min == before.window.cw_min
            &&& after.phase == StationPhase::WaitingForMedium
        }),
        forall|i: int|
            0 <= i < pre.stations.len() && i != w && (#[trigger] pre.stations[i]).phase
                == StationPhase::BackoffCountdown ==> {
                let after = next_state(timing, pre, draws).stations[i];
                &&& after.backoff.counter == pre.stations[i].backoff.counter
                &&& after.backoff.frozen_counter == Some(pre.stations[i].backoff.counter)
                &&& after.phase == StationPhase::WaitingForMedium
            },
{
    let c = contention_view(timing, pre);
    let post = next_state(timing, pre, draws);
    assert(post.stations == after_success(c, w, draws[0]));
    assert(c[w].window == pre.stations[w].window);
}

} // verus!
