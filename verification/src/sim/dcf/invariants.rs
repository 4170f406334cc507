use vstd::prelude::*;

use crate::domain::scenario::{users_sum, Scenario, StationClass};

use super::metrics::{field_total, field_value, station_tallies, StationTally, TallyField};
use super::model::{
    after_collision, after_success, aged, begin_contention, contention_view, contenders_of,
    draws_valid, idle_advance, initial_state, next_state, ready_indices, roster, state_invariant,
    station_initial, station_ok, success_total, windows_valid, SimState,
};
use super::phase::StationPhase;
use super::station::StationRuntime;
use super::timing::TimingModel;
use super::window::lemma_window_stays_bounded;

verus! {

/// The ready indices among the first `k` stations are increasing, below `k`, and exactly
/// the ready stations; there are at most `k` of them.
pub proof fn lemma_ready_indices(stations: Seq<StationRuntime>, k: int)
    requires
        0 <= k <= stations.len(),
        stations.len() <= usize::MAX,
    ensures
        ready_indices(stations, k).len() <= k,
        forall|j: int|
            0 <= j < ready_indices(stations, k).len() ==> {
                let idx = #[trigger] ready_indices(stations, k)[j];
                &&& 0 <= idx < k
                &&& stations[idx as int].is_ready_spec()
            },
        forall|i: int|
            0 <= i < k && (#[trigger] stations[i]).is_ready_spec() ==> ready_indices(stations, i).len()
                < ready_indices(stations, k).len(),
        forall|i: int|
            0 <= i <= k ==> #[trigger] ready_indices(stations, i).len() <= ready_indices(
                stations,
                k,
            ).len(),
        ready_indices(stations, k).len() == 0 ==> forall|i: int|
            0 <= i < k ==> !(#[trigger] stations[i]).is_ready_spec(),
    decreases k,
{
    if k > 0 {
        lemma_ready_indices(stations, k - 1);
        let prev = ready_indices(stations, k - 1);
        let cur = ready_indices(stations, k);
        assert forall|j: int| 0 <= j < cur.len() implies {
            let idx = #[trigger] cur[j];
            &&& 0 <= idx < k
            &&& stations[idx as int].is_ready_spec()
        } by {
            if j < prev.len() {
                assert(cur[j] == prev[j]);
            }
        }
    }
}

/// Totals of two equally long sequences agree where the summed quantity agrees pointwise.
pub proof fn lemma_total_congruent(a: Seq<StationTally>, b: Seq<StationTally>, f: TallyField)
    requires
        a.len() == b.len(),
        forall|i: int| 0 <= i < a.len() ==> field_value(#[trigger] a[i], f) == field_value(b[i], f),
    ensures
        field_total(a, f) == field_total(b, f),
    decreases a.len(),
{
    if a.len() > 0 {
        lemma_total_congruent(a.drop_last(), b.drop_last(), f);
    }
}

/// Changing one entry changes the total by the difference at that entry.
pub proof fn lemma_total_one_changed(
    a: Seq<StationTally>,
    b: Seq<StationTally>,
    k: int,
    f: TallyField,
)
    requires
        a.len() == b.len(),
        0 <= k < a.len(),
        forall|i: int|
            0 <= i < a.len() && i != k ==> field_value(#[trigger] a[i], f) == field_value(b[i], f),
    ensures
        field_total(b, f) == field_total(a, f) - field_value(a[k], f) + field_value(b[k], f),
    decreases a.len(),
{
    if k == a.len() - 1 {
        lemma_total_congruent(a.drop_last(), b.drop_last(), f);
    } else {
        lemma_total_one_changed(a.drop_last(), b.drop_last(), k, f);
    }
}

/// Entries bounded by `bound` add up to at most `len * bound`.
pub proof fn lemma_total_bounded(ts: Seq<StationTally>, f: TallyField, bound: int)
    requires
        bound >= 0,
        forall|i: int| 0 <= i < ts.len() ==> field_value(#[trigger] ts[i], f) <= bound,
    ensures
        field_total(ts, f) <= ts.len() * bound,
    decreases ts.len(),
{
    if ts.len() > 0 {
        lemma_total_bounded(ts.drop_last(), f, bound);
        let n = ts.len() as int;
        assert((n - 1) * bound + bound == n * bound) by (nonlinear_arith);
    }
}

/// The roster holds one entry per user.
pub proof fn lemma_roster_len(classes: Seq<StationClass>)
    ensures
        roster(classes).len() == users_sum(classes),
    decreases classes.len(),
{
    if classes.len() > 0 {
        lemma_roster_len(classes.drop_last());
    }
}

/// The roster of one more class appends that class's users.
pub proof fn lemma_roster_take(classes: Seq<StationClass>, c: int)
    requires
        0 <= c < classes.len(),
    ensures
        roster(classes.take(c + 1)) == roster(classes.take(c)) + Seq::new(
            classes[c].users as nat,
            |i: int| classes[c],
        ),
{
    assert(classes.take(c + 1).drop_last() =~= classes.take(c));
    assert(classes.take(c + 1).last() == classes[c]);
}

/// The initial state of a valid scenario satisfies the run invariant.
pub proof fn lemma_initial_invariant(scenario: Scenario, s: SimState)
    requires
        initial_state(scenario, s),
        windows_valid(scenario),
        roster_classes_valid(scenario),
    ensures
        state_invariant(scenario, s),
{
    let r = roster(scenario.classes@);
    assert forall|i: int| 0 <= i < s.stations.len() implies station_ok(
        #[trigger] s.stations[i],
        r[i],
        scenario.window.cw_max,
        s.next_slot,
    ) by {
        assert(station_initial(s.stations[i], i, r[i], scenario.window.cw_max, scenario.timing.difs_slots));
    }
    lemma_total_bounded(station_tallies(s.stations), TallyField::Successes, 0);
    lemma_total_nonneg_successes(s.stations);
}

pub proof fn lemma_total_nonneg_successes(stations: Seq<StationRuntime>)
    ensures
        success_total(stations) >= 0,
{
    super::metrics::lemma_total_nonneg(station_tallies(stations), TallyField::Successes);
}

/// Every entry of the roster of a valid scenario has a minimum within the cap.
pub open spec fn roster_classes_valid(scenario: Scenario) -> bool {
    forall|k: int|
        0 <= k < roster(scenario.classes@).len() ==> (#[trigger] roster(scenario.classes@)[k]).cw_min
            <= scenario.window.cw_max
}

/// Before the outcome of a slot is known, the aged and contending stations already
/// satisfy the station invariant at the next slot count.
pub proof fn lemma_contention_ok(scenario: Scenario, s: SimState)
    requires
        state_invariant(scenario, s),
        s.next_slot < scenario.timing.total_slots,
    ensures
        forall|i: int|
            0 <= i < s.stations.len() ==> {
                &&& station_ok(
                    #[trigger] aged(s.stations)[i],
                    roster(scenario.classes@)[i],
                    scenario.window.cw_max,
                    (s.next_slot + 1) as u64,
                )
                &&& station_ok(
                    begin_contention(aged(s.stations), scenario.timing.difs_slots)[i],
                    roster(scenario.classes@)[i],
                    scenario.window.cw_max,
                    (s.next_slot + 1) as u64,
                )
            },
{
    let r = roster(scenario.classes@);
    assert forall|i: int| 0 <= i < s.stations.len() implies {
        &&& station_ok(
            #[trigger] aged(s.stations)[i],
            r[i],
            scenario.window.cw_max,
            (s.next_slot + 1) as u64,
        )
        &&& station_ok(
            begin_contention(aged(s.stations), scenario.timing.difs_slots)[i],
            r[i],
            scenario.window.cw_max,
            (s.next_slot + 1) as u64,
        )
    } by {
        assert(station_ok(s.stations[i], r[i], scenario.window.cw_max, s.next_slot));
    }
}

/// Under the run invariant, no total of a report overflows, provided the stations times
/// the run's slots fit in a `u64` and the stations fit in a `u32`.
pub proof fn lemma_invariant_tallies_fit(scenario: Scenario, s: SimState)
    requires
        state_invariant(scenario, s),
        s.stations.len() <= u32::MAX,
        s.stations.len() * scenario.timing.total_slots <= u64::MAX,
    ensures
        super::metrics::tallies_fit(station_tallies(s.stations)),
{
    let r = roster(scenario.classes@);
    let ts = station_tallies(s.stations);
    let bound = s.next_slot as int;
    assert forall|i: int| 0 <= i < ts.len() implies field_value(#[trigger] ts[i], TallyField::Successes)
        <= bound && field_value(ts[i], TallyField::Collisions) <= bound && field_value(
        ts[i],
        TallyField::Delay,
    ) <= bound by {
        assert(station_ok(s.stations[i], r[i], scenario.window.cw_max, s.next_slot));
    }
    lemma_total_bounded(ts, TallyField::Successes, bound);
    lemma_total_bounded(ts, TallyField::Collisions, bound);
    lemma_total_bounded(ts, TallyField::Delay, bound);
    let n = ts.len() as int;
    let total = scenario.timing.total_slots as int;
    assert(n * bound <= n * total) by (nonlinear_arith)
        requires
            0 <= bound <= total,
            n >= 0,
    ;
}

/// Stations whose successes agree pointwise have the same success total.
pub proof fn lemma_success_total_congruent(a: Seq<StationRuntime>, b: Seq<StationRuntime>)
    requires
        a.len() == b.len(),
        forall|i: int| 0 <= i < a.len() ==> (#[trigger] a[i]).successful_packets == b[i].successful_packets,
    ensures
        success_total(a) == success_total(b),
{
    let ta = station_tallies(a);
    let tb = station_tallies(b);
    assert forall|i: int| 0 <= i < ta.len() implies field_value(#[trigger] ta[i], TallyField::Successes)
        == field_value(tb[i], TallyField::Successes) by {
        assert(a[i].successful_packets == b[i].successful_packets);
    }
    lemma_total_congruent(ta, tb, TallyField::Successes);
}

/// Every slot keeps the run invariant: stations keep their class, windows stay within
/// `[cw_min, cw_max]`, counters (frozen ones too) stay within the current window, every
/// station's delivered delay plus its current packet's age equals the elapsed slots,
/// successes plus collisions never outnumber the elapsed slots, a lone station never
/// collides, and nothing is sent before the DIFS has elapsed.
pub proof fn lemma_step_invariant(scenario: Scenario, s: SimState, draws: Seq<u32>)
    requires
        state_invariant(scenario, s),
        s.next_slot < scenario.timing.total_slots,
        s.stations.len() <= usize::MAX,
        draws_valid(TimingModel { config: scenario.timing }, s, draws),
    ensures
        state_invariant(scenario, next_state(TimingModel { config: scenario.timing }, s, draws)),
{
    let t = TimingModel { config: scenario.timing };
    let r = roster(scenario.classes@);
    let cw_max = scenario.window.cw_max;
    let difs = scenario.timing.difs_slots;
    let n1 = (s.next_slot + 1) as u64;
    let a = aged(s.stations);
    let c = begin_contention(a, difs);
    let post = next_state(t, s, draws);
    assert(c == contention_view(t, s));
    lemma_ready_indices(c, c.len() as int);
    let ready = ready_indices(c, c.len() as int);
    assert(ready == contenders_of(t, s));
    assert forall|i: int| 0 <= i < c.len() implies station_ok(#[trigger] c[i], r[i], cw_max, n1)
        && c[i].successful_packets == s.stations[i].successful_packets by {
        assert(station_ok(s.stations[i], r[i], cw_max, s.next_slot));
    }
    assert forall|i: int| 0 <= i < a.len() implies station_ok(#[trigger] a[i], r[i], cw_max, n1)
        && a[i].successful_packets == s.stations[i].successful_packets by {
        assert(station_ok(s.stations[i], r[i], cw_max, s.next_slot));
    }
    lemma_success_total_congruent(s.stations, c);
    lemma_success_total_congruent(s.stations, a);
    if s.next_slot < difs {
        assert forall|i: int| 0 <= i < c.len() implies c[i] == a[i] && !(#[trigger] c[i]).is_ready_spec() by {
            assert(s.stations[i].phase == StationPhase::Defer);
        }
        assert(ready.len() == 0) by {
            if ready.len() > 0 {
                let idx = ready[0];
                assert(c[idx as int].is_ready_spec());
            }
        }
    }
    if s.medium.busy_slots_remaining > 0 {
        assert(post.stations == a);
    } else if ready.len() == 0 {
        assert(post.stations == idle_advance(c));
        assert forall|i: int| 0 <= i < post.stations.len() implies station_ok(
            #[trigger] post.stations[i],
            r[i],
            cw_max,
            n1,
        ) && post.stations[i].successful_packets == c[i].successful_packets by {
            assert(station_ok(c[i], r[i], cw_max, n1));
        }
        lemma_success_total_congruent(c, post.stations);
        if s.next_slot < difs {
            assert forall|i: int| 0 <= i < post.stations.len() && n1 < difs implies (
            #[trigger] post.stations[i]).phase == StationPhase::Defer
                && post.stations[i].defer_slots_remaining == difs - n1 by {
                assert(s.stations[i].phase == StationPhase::Defer);
            }
        }
    } else if ready.len() == 1 {
        let id = ready[0] as int;
        assert(post.stations == after_success(c, id, draws[0]));
        assert forall|i: int| 0 <= i < post.stations.len() implies station_ok(
            #[trigger] post.stations[i],
            r[i],
            cw_max,
            n1,
        ) by {
            assert(station_ok(c[i], r[i], cw_max, n1));
            lemma_window_stays_bounded(c[i].window);
        }
        let tc = station_tallies(c);
        let tp = station_tallies(post.stations);
        assert forall|i: int| 0 <= i < tc.len() && i != id implies field_value(
            #[trigger] tc[i],
            TallyField::Successes,
        ) == field_value(tp[i], TallyField::Successes) by {}
        lemma_total_one_changed(tc, tp, id, TallyField::Successes);
    } else {
        assert(post.stations == after_collision(c, draws));
        assert forall|i: int| 0 <= i < post.stations.len() implies station_ok(
            #[trigger] post.stations[i],
            r[i],
            cw_max,
            n1,
        ) && post.stations[i].successful_packets == c[i].successful_packets by {
            assert(station_ok(c[i], r[i], cw_max, n1));
            lemma_window_stays_bounded(c[i].window);
        }
        lemma_success_total_congruent(c, post.stations);
    }
}

} // verus!
