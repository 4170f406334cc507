use vstd::prelude::*;

use crate::domain::report::{AggregateReport, ClassReport, SimulationReport};
use crate::domain::scenario::Scenario;
use crate::text::{chars_lt, lemma_chars_lt_irreflexive, lemma_chars_lt_total, lemma_chars_lt_transitive, str_less};

use super::station::StationRuntime;

verus! {

/// The per-station totals that reports add up, with the station's class name.
#[derive(Debug, Clone, PartialEq, Eq)]
pub struct StationTally {
    pub class_name: String,
    pub successful_packets: u64,
    pub collision_attempts: u64,
    pub total_delay_slots: u64,
}

/// Which quantity of a tally a sum adds up.
pub enum TallyField {
    Stations,
    Successes,
    Collisions,
    Delay,
}

pub open spec fn field_value(t: StationTally, f: TallyField) -> int {
    match f {
        TallyField::Stations => 1,
        TallyField::Successes => t.successful_packets as int,
        TallyField::Collisions => t.collision_attempts as int,
        TallyField::Delay => t.total_delay_slots as int,
    }
}

/// The sum of a quantity over all tallies.
pub open spec fn field_total(ts: Seq<StationTally>, f: TallyField) -> int
    decreases ts.len(),
{
    if ts.len() == 0 {
        0
    } else {
        field_total(ts.drop_last(), f) + field_value(ts.last(), f)
    }
}

/// The sum of a quantity over the tallies of the class named `name`.
pub open spec fn class_total(ts: Seq<StationTally>, name: Seq<char>, f: TallyField) -> int
    decreases ts.len(),
{
    if ts.len() == 0 {
        0
    } else {
        class_total(ts.drop_last(), name, f) + if ts.last().class_name@ == name {
            field_value(ts.last(), f)
        } else {
            0
        }
    }
}

/// Some group carries the name `name`.
pub open spec fn has_group(groups: Seq<ClassReport>, name: Seq<char>) -> bool {
    exists|j: int| 0 <= j < groups.len() && (#[trigger] groups[j]).class_name@ == name
}

/// `groups` is the per-class breakdown of `ts`: one group per class name that occurs,
/// in strictly increasing lexicographic order of the names, each carrying the number of
/// stations of its class and their summed successes, collisions and delay.
pub open spec fn groups_match(groups: Seq<ClassReport>, ts: Seq<StationTally>) -> bool {
    &&& forall|i: int, j: int|
        0 <= i < j < groups.len() ==> chars_lt(
            #[trigger] groups[i].class_name@,
            #[trigger] groups[j].class_name@,
        )
    &&& forall|name: Seq<char>|
        #[trigger] has_group(groups, name) <==> class_total(ts, name, TallyField::Stations) > 0
    &&& forall|j: int|
        0 <= j < groups.len() ==> {
            let name = (#[trigger] groups[j]).class_name@;
            &&& groups[j].users == class_total(ts, name, TallyField::Stations)
            &&& groups[j].successful_packets == class_total(ts, name, TallyField::Successes)
            &&& groups[j].collision_attempts == class_total(ts, name, TallyField::Collisions)
            &&& groups[j].total_delay_slots == class_total(ts, name, TallyField::Delay)
        }
}

/// No total overflows the width its report field has.
pub open spec fn tallies_fit(ts: Seq<StationTally>) -> bool {
    &&& ts.len() <= u32::MAX
    &&& field_total(ts, TallyField::Successes) <= u64::MAX
    &&& field_total(ts, TallyField::Collisions) <= u64::MAX
    &&& field_total(ts, TallyField::Delay) <= u64::MAX
}

pub open spec fn tally_of(s: StationRuntime) -> StationTally {
    StationTally {
        class_name: s.class_name,
        successful_packets: s.successful_packets,
        collision_attempts: s.collision_attempts,
        total_delay_slots: s.total_delay_slots,
    }
}

pub open spec fn station_tallies(stations: Seq<StationRuntime>) -> Seq<StationTally> {
    Seq::new(stations.len(), |i: int| tally_of(stations[i]))
}

/// `report` is the report of a run of `total_slots` slots with `payload_bits` per success,
/// whose stations ended with the tallies `ts` and which saw `collision_events` collisions.
pub open spec fn report_matches(
    report: SimulationReport,
    total_slots: u64,
    payload_bits: u64,
    ts: Seq<StationTally>,
    collision_events: u64,
) -> bool {
    &&& report.total_slots == total_slots
    &&& report.payload_bits == payload_bits
    &&& report.aggregate.total_successful_packets == field_total(ts, TallyField::Successes)
    &&& report.aggregate.total_delay_slots == field_total(ts, TallyField::Delay)
    &&& report.aggregate.collision_events == collision_events
    &&& groups_match(report.per_class@, ts)
}

pub proof fn lemma_totals_take(ts: Seq<StationTally>, i: int, name: Seq<char>, f: TallyField)
    requires
        0 <= i < ts.len(),
    ensures
        field_total(ts.take(i + 1), f) == field_total(ts.take(i), f) + field_value(ts[i], f),
        class_total(ts.take(i + 1), name, f) == class_total(ts.take(i), name, f) + if ts[i].class_name@
            == name {
            field_value(ts[i], f)
        } else {
            0
        },
{
    assert(ts.take(i + 1).drop_last() =~= ts.take(i));
}

pub proof fn lemma_class_total_bounded(ts: Seq<StationTally>, name: Seq<char>, f: TallyField)
    ensures
        0 <= class_total(ts, name, f) <= field_total(ts, f),
    decreases ts.len(),
{
    if ts.len() > 0 {
        lemma_class_total_bounded(ts.drop_last(), name, f);
    }
}

pub proof fn lemma_total_prefix(ts: Seq<StationTally>, i: int, f: TallyField)
    requires
        0 <= i <= ts.len(),
    ensures
        0 <= field_total(ts.take(i), f) <= field_total(ts, f),
    decreases ts.len() - i,
{
    if i == ts.len() {
        assert(ts.take(i) =~= ts);
        lemma_total_nonneg(ts, f);
    } else {
        lemma_total_nonneg(ts.take(i), f);
        lemma_totals_take(ts, i, Seq::empty(), f);
        lemma_total_prefix(ts, i + 1, f);
    }
}

pub proof fn lemma_total_nonneg(ts: Seq<StationTally>, f: TallyField)
    ensures
        field_total(ts, f) >= 0,
    decreases ts.len(),
{
    if ts.len() > 0 {
        lemma_total_nonneg(ts.drop_last(), f);
    }
}

/// A class with no station has nothing to add up.
pub proof fn lemma_class_absent(ts: Seq<StationTally>, name: Seq<char>, f: TallyField)
    requires
        class_total(ts, name, TallyField::Stations) == 0,
    ensures
        class_total(ts, name, f) == 0,
    decreases ts.len(),
{
    if ts.len() > 0 {
        lemma_class_total_bounded(ts.drop_last(), name, TallyField::Stations);
        lemma_class_absent(ts.drop_last(), name, f);
    }
}

/// Counting the stations of every name counts each station once.
pub proof fn lemma_station_count(ts: Seq<StationTally>)
    ensures
        field_total(ts, TallyField::Stations) == ts.len(),
    decreases ts.len(),
{
    if ts.len() > 0 {
        lemma_station_count(ts.drop_last());
    }
}

/// A quantity of a class group.
pub open spec fn group_value(g: ClassReport, f: TallyField) -> int {
    match f {
        TallyField::Stations => g.users as int,
        TallyField::Successes => g.successful_packets as int,
        TallyField::Collisions => g.collision_attempts as int,
        TallyField::Delay => g.total_delay_slots as int,
    }
}

/// The sum of a quantity over class groups.
pub open spec fn groups_total(groups: Seq<ClassReport>, f: TallyField) -> int
    decreases groups.len(),
{
    if groups.len() == 0 {
        0
    } else {
        groups_total(groups.drop_last(), f) + group_value(groups.last(), f)
    }
}

spec fn group_names(groups: Seq<ClassReport>) -> Seq<Seq<char>> {
    Seq::new(groups.len(), |j: int| groups[j].class_name@)
}

/// The sum, over a list of names, of a quantity of the tallies of each name.
spec fn names_total(ts: Seq<StationTally>, names: Seq<Seq<char>>, f: TallyField) -> int
    decreases names.len(),
{
    if names.len() == 0 {
        0
    } else {
        names_total(ts, names.drop_last(), f) + class_total(ts, names.last(), f)
    }
}

spec fn name_count(names: Seq<Seq<char>>, x: Seq<char>) -> int
    decreases names.len(),
{
    if names.len() == 0 {
        0
    } else {
        name_count(names.drop_last(), x) + if names.last() == x {
            1int
        } else {
            0int
        }
    }
}

spec fn names_distinct(names: Seq<Seq<char>>) -> bool {
    forall|i: int, j: int| 0 <= i < j < names.len() ==> names[i] != names[j]
}

proof fn lemma_names_total_empty(names: Seq<Seq<char>>, f: TallyField)
    ensures
        names_total(Seq::<StationTally>::empty(), names, f) == 0,
    decreases names.len(),
{
    if names.len() > 0 {
        lemma_names_total_empty(names.drop_last(), f);
    }
}

proof fn lemma_names_total_step(ts: Seq<StationTally>, names: Seq<Seq<char>>, f: TallyField)
    requires
        ts.len() > 0,
    ensures
        name_count(names, ts.last().class_name@) == 0 ==> names_total(ts, names, f) == names_total(
            ts.drop_last(),
            names,
            f,
        ),
        name_count(names, ts.last().class_name@) == 1 ==> names_total(ts, names, f) == names_total(
            ts.drop_last(),
            names,
            f,
        ) + field_value(ts.last(), f),
    decreases names.len(),
{
    if names.len() > 0 {
        lemma_names_total_step(ts, names.drop_last(), f);
        lemma_name_count_nonneg(names.drop_last(), ts.last().class_name@);
    }
}

proof fn lemma_name_count_nonneg(names: Seq<Seq<char>>, x: Seq<char>)
    ensures
        name_count(names, x) >= 0,
    decreases names.len(),
{
    if names.len() > 0 {
        lemma_name_count_nonneg(names.drop_last(), x);
    }
}

proof fn lemma_name_count_absent(names: Seq<Seq<char>>, x: Seq<char>)
    requires
        !names.contains(x),
    ensures
        name_count(names, x) == 0,
    decreases names.len(),
{
    if names.len() > 0 {
        assert(names.last() == names[names.len() - 1]);
        assert forall|k: int| 0 <= k < names.drop_last().len() implies names.drop_last()[k] != x by {
            assert(names.drop_last()[k] == names[k]);
        }
        lemma_name_count_absent(names.drop_last(), x);
    }
}

proof fn lemma_name_count_distinct(names: Seq<Seq<char>>, x: Seq<char>)
    requires
        names_distinct(names),
        names.contains(x),
    ensures
        name_count(names, x) == 1,
    decreases names.len(),
{
    let last = names.len() - 1;
    let rest = names.drop_last();
    assert forall|i: int, j: int| 0 <= i < j < rest.len() implies rest[i] != rest[j] by {
        assert(rest[i] == names[i] && rest[j] == names[j]);
    }
    if names[last] == x {
        assert forall|k: int| 0 <= k < rest.len() implies rest[k] != x by {
            assert(rest[k] == names[k]);
        }
        lemma_name_count_absent(rest, x);
    } else {
        let k = choose|k: int| 0 <= k < names.len() && names[k] == x;
        assert(rest[k] == x);
        lemma_name_count_distinct(rest, x);
    }
}

/// Distinct names that cover every class of `ts` split its totals without loss or overlap.
proof fn lemma_names_cover(ts: Seq<StationTally>, names: Seq<Seq<char>>, f: TallyField)
    requires
        names_distinct(names),
        forall|name: Seq<char>| class_total(ts, name, TallyField::Stations) > 0 ==> names.contains(name),
    ensures
        names_total(ts, names, f) == field_total(ts, f),
    decreases ts.len(),
{
    if ts.len() == 0 {
        assert(ts =~= Seq::<StationTally>::empty());
        lemma_names_total_empty(names, f);
    } else {
        let rest = ts.drop_last();
        let x = ts.last().class_name@;
        lemma_class_total_bounded(rest, x, TallyField::Stations);
        assert(class_total(ts, x, TallyField::Stations) > 0);
        lemma_name_count_distinct(names, x);
        assert forall|name: Seq<char>| class_total(rest, name, TallyField::Stations) > 0 implies names.contains(
            name,
        ) by {
            assert(class_total(ts, name, TallyField::Stations) > 0);
        }
        lemma_names_cover(rest, names, f);
        lemma_names_total_step(ts, names, f);
    }
}

proof fn lemma_groups_names_total(groups: Seq<ClassReport>, ts: Seq<StationTally>, f: TallyField)
    requires
        forall|j: int|
            0 <= j < groups.len() ==> group_value(#[trigger] groups[j], f) == class_total(
                ts,
                groups[j].class_name@,
                f,
            ),
    ensures
        groups_total(groups, f) == names_total(ts, group_names(groups), f),
    decreases groups.len(),
{
    if groups.len() > 0 {
        let rest = groups.drop_last();
        assert forall|j: int| 0 <= j < rest.len() implies group_value(#[trigger] rest[j], f) == class_total(
            ts,
            rest[j].class_name@,
            f,
        ) by {
            assert(rest[j] == groups[j]);
        }
        lemma_groups_names_total(rest, ts, f);
        assert(group_names(groups).drop_last() =~= group_names(rest));
        assert(group_names(groups).last() == groups.last().class_name@);
        assert(group_value(groups[groups.len() - 1], f) == class_total(
            ts,
            groups[groups.len() - 1].class_name@,
            f,
        ));
    }
}

/// The per-class breakdown adds up to the whole: summed over the class groups, station
/// counts, successes, collision attempts and delays equal their totals over all stations.
pub proof fn lemma_classes_add_up(groups: Seq<ClassReport>, ts: Seq<StationTally>, f: TallyField)
    requires
        groups_match(groups, ts),
    ensures
        groups_total(groups, f) == field_total(ts, f),
{
    let names = group_names(groups);
    assert forall|i: int, j: int| 0 <= i < j < names.len() implies names[i] != names[j] by {
        assert(chars_lt(groups[i].class_name@, groups[j].class_name@));
        lemma_chars_lt_irreflexive(groups[i].class_name@);
    }
    assert forall|name: Seq<char>| class_total(ts, name, TallyField::Stations) > 0 implies names.contains(name) by {
        assert(has_group(groups, name));
        let j = choose|j: int| 0 <= j < groups.len() && (#[trigger] groups[j]).class_name@ == name;
        assert(names[j] == name);
    }
    assert forall|j: int| 0 <= j < groups.len() implies group_value(#[trigger] groups[j], f) == class_total(
        ts,
        groups[j].class_name@,
        f,
    ) by {
        let name = groups[j].class_name@;
        assert(groups[j].users == class_total(ts, name, TallyField::Stations));
    }
    lemma_groups_names_total(groups, ts, f);
    lemma_names_cover(ts, names, f);
}

/// A report's classes add up to its totals: their station counts to the number of
/// stations, their successes and delays to the aggregate successes and delay.
pub proof fn lemma_report_classes_add_up(
    report: SimulationReport,
    total_slots: u64,
    payload_bits: u64,
    ts: Seq<StationTally>,
    collision_events: u64,
)
    requires
        report_matches(report, total_slots, payload_bits, ts, collision_events),
    ensures
        groups_total(report.per_class@, TallyField::Stations) == ts.len(),
        groups_total(report.per_class@, TallyField::Successes) == report.aggregate.total_successful_packets,
        groups_total(report.per_class@, TallyField::Delay) == report.aggregate.total_delay_slots,
{
    lemma_classes_add_up(report.per_class@, ts, TallyField::Stations);
    lemma_classes_add_up(report.per_class@, ts, TallyField::Successes);
    lemma_classes_add_up(report.per_class@, ts, TallyField::Delay);
    lemma_station_count(ts);
}

/// Adds up the stations of each class name, classes in lexicographic order of their names.
pub fn group_by_class(tallies: &Vec<StationTally>) -> (groups: Vec<ClassReport>)
    requires
        tallies_fit(tallies@),
    ensures
        groups_match(groups@, tallies@),
{
    let ghost ts = tallies@;
    let mut groups: Vec<ClassReport> = Vec::new();
    proof {
        assert(ts.take(0) =~= Seq::<StationTally>::empty());
        assert forall|name: Seq<char>|
            #[trigger] has_group(groups@, name) <==> class_total(
                ts.take(0),
                name,
                TallyField::Stations,
            ) > 0 by {}
    }
    for i in 0..tallies.len()
        invariant
            ts == tallies@,
            tallies_fit(ts),
            groups_match(groups@, ts.take(i as int)),
    {
        let tally = &tallies[i];
        let ghost name = tally.class_name@;
        let ghost before = groups@;
        let ghost pre = ts.take(i as int);
        let ghost post = ts.take(i + 1);
        proof {
            lemma_totals_take(ts, i as int, name, TallyField::Stations);
            assert forall|n: Seq<char>, f: TallyField| #![trigger class_total(post, n, f)]
                class_total(post, n, f) == class_total(pre, n, f) + if n == name {
                    field_value(ts[i as int], f)
                } else {
                    0
                } by {
                lemma_totals_take(ts, i as int, n, f);
            }
            assert forall|f: TallyField| #![trigger class_total(post, name, f)]
                class_total(post, name, f) <= field_total(ts, f) by {
                lemma_class_total_bounded(post, name, f);
                lemma_total_prefix(ts, i + 1, f);
            }
            lemma_station_count(ts);
        }
        let mut p: usize = 0;
        while p < groups.len() && str_less(groups[p].class_name.as_str(), tally.class_name.as_str())
            invariant
                p <= groups@.len(),
                groups@ == before,
                tally == tallies@[i as int],
                name == tally.class_name@,
                forall|q: int| 0 <= q < p ==> chars_lt(#[trigger] groups@[q].class_name@, name),
            decreases groups.len() - p,
        {
            p += 1;
        }
        if p < groups.len() && groups[p].class_name == tally.class_name {
            let old_group = groups.remove(p);
            proof {
                assert(old_group == before[p as int]);
                assert(old_group.class_name@ == name);
                assert(class_total(post, name, TallyField::Stations) == old_group.users + 1);
                assert(class_total(post, name, TallyField::Successes) == old_group.successful_packets
                    + tally.successful_packets);
                assert(class_total(post, name, TallyField::Collisions) == old_group.collision_attempts
                    + tally.collision_attempts);
                assert(class_total(post, name, TallyField::Delay) == old_group.total_delay_slots
                    + tally.total_delay_slots);
            }
            let updated = ClassReport {
                class_name: old_group.class_name,
                users: old_group.users + 1,
                successful_packets: old_group.successful_packets + tally.successful_packets,
                collision_attempts: old_group.collision_attempts + tally.collision_attempts,
                total_delay_slots: old_group.total_delay_slots + tally.total_delay_slots,
            };
            groups.insert(p, updated);
            proof {
                assert(groups@ =~= before.update(p as int, updated));
                assert forall|j: int| 0 <= j < groups@.len() && j != p implies {
                    let nm = (#[trigger] groups@[j]).class_name@;
                    nm != name
                } by {
                    if j < p {
                        assert(chars_lt(before[j].class_name@, before[p as int].class_name@));
                        lemma_chars_lt_irreflexive(name);
                    } else {
                        assert(chars_lt(before[p as int].class_name@, before[j].class_name@));
                        lemma_chars_lt_irreflexive(name);
                    }
                }
                assert forall|a: int, b: int|
                    0 <= a < b < groups@.len() implies chars_lt(
                    #[trigger] groups@[a].class_name@,
                    #[trigger] groups@[b].class_name@,
                ) by {
                    assert(chars_lt(before[a].class_name@, before[b].class_name@));
                }
                assert forall|n: Seq<char>|
                    #[trigger] has_group(groups@, n) <==> class_total(
                        post,
                        n,
                        TallyField::Stations,
                    ) > 0 by {
                    if has_group(before, n) {
                        let j = choose|j: int|
                            0 <= j < before.len() && (#[trigger] before[j]).class_name@ == n;
                        assert(groups@[j].class_name@ == n);
                    }
                    if has_group(groups@, n) {
                        let j = choose|j: int|
                            0 <= j < groups@.len() && (#[trigger] groups@[j]).class_name@ == n;
                        assert(before[j].class_name@ == n);
                    }
                    lemma_class_total_bounded(pre, n, TallyField::Stations);
                }
            }
        } else {
            let fresh = ClassReport {
                class_name: tally.class_name.clone(),
                users: 1,
                successful_packets: tally.successful_packets,
                collision_attempts: tally.collision_attempts,
                total_delay_slots: tally.total_delay_slots,
            };
            proof {
                if p < before.len() {
                    assert(before[p as int].class_name@ != name);
                    lemma_chars_lt_total(before[p as int].class_name@, name);
                }
                assert forall|q: int| 0 <= q < before.len() implies before[q].class_name@
                    != name by {
                    if q < p {
                        lemma_chars_lt_irreflexive(name);
                    } else if q > p {
                        lemma_chars_lt_transitive(
                            name,
                            before[p as int].class_name@,
                            before[q].class_name@,
                        );
                        lemma_chars_lt_irreflexive(name);
                    }
                }
                assert(!has_group(before, name));
                lemma_class_total_bounded(pre, name, TallyField::Stations);
                lemma_class_absent(pre, name, TallyField::Successes);
                lemma_class_absent(pre, name, TallyField::Collisions);
                lemma_class_absent(pre, name, TallyField::Delay);
            }
            groups.insert(p, fresh);
            proof {
                assert(groups@ =~= before.insert(p as int, fresh));
                assert forall|a: int, b: int|
                    0 <= a < b < groups@.len() implies chars_lt(
                    #[trigger] groups@[a].class_name@,
                    #[trigger] groups@[b].class_name@,
                ) by {
                    if b == p {
                    } else if a == p {
                        if b - 1 > p {
                            lemma_chars_lt_transitive(
                                name,
                                before[p as int].class_name@,
                                before[b - 1].class_name@,
                            );
                        }
                    } else if a < p && b > p {
                        assert(chars_lt(before[a].class_name@, before[b - 1].class_name@));
                    } else if a > p {
                        assert(chars_lt(before[a - 1].class_name@, before[b - 1].class_name@));
                    }
                }
                assert forall|n: Seq<char>|
                    #[trigger] has_group(groups@, n) <==> class_total(
                        post,
                        n,
                        TallyField::Stations,
                    ) > 0 by {
                    if has_group(before, n) {
                        let j = choose|j: int|
                            0 <= j < before.len() && (#[trigger] before[j]).class_name@ == n;
                        if j < p {
                            assert(groups@[j].class_name@ == n);
                        } else {
                            assert(groups@[j + 1].class_name@ == n);
                        }
                    }
                    if has_group(groups@, n) {
                        let j = choose|j: int|
                            0 <= j < groups@.len() && (#[trigger] groups@[j]).class_name@ == n;
                        if j < p {
                            assert(before[j].class_name@ == n);
                        } else if j > p {
                            assert(before[j - 1].class_name@ == n);
                        }
                    }
                    if n == name {
                        assert(groups@[p as int].class_name@ == n);
                    }
                    lemma_class_total_bounded(pre, n, TallyField::Stations);
                }
                assert forall|j: int| 0 <= j < groups@.len() && j != p implies {
                    let nm = (#[trigger] groups@[j]).class_name@;
                    nm != name
                } by {
                    if j < p {
                        assert(before[j].class_name@ != name);
                    } else {
                        assert(before[j - 1].class_name@ != name);
                    }
                }
            }
        }
    }
    proof {
        assert(ts.take(ts.len() as int) =~= ts);
    }
    groups
}

/// Copies the totals of each station, with its class name.
pub fn tally_stations(stations: &Vec<StationRuntime>) -> (tallies: Vec<StationTally>)
    ensures
        tallies@ == station_tallies(stations@),
{
    let mut tallies: Vec<StationTally> = Vec::new();
    for i in 0..stations.len()
        invariant
            tallies@ =~= station_tallies(stations@.take(i as int)),
    {
        let station = &stations[i];
        tallies.push(
            StationTally {
                class_name: station.class_name.clone(),
                successful_packets: station.successful_packets,
                collision_attempts: station.collision_attempts,
                total_delay_slots: station.total_delay_slots,
            },
        );
    }
    proof {
        assert(stations@.take(stations@.len() as int) =~= stations@);
    }
    tallies
}

/// Sums successes and delay over all tallies.
pub fn sum_tallies(tallies: &Vec<StationTally>) -> (totals: (u64, u64))
    requires
        tallies_fit(tallies@),
    ensures
        totals.0 == field_total(tallies@, TallyField::Successes),
        totals.1 == field_total(tallies@, TallyField::Delay),
{
    let ghost ts = tallies@;
    let mut successes: u64 = 0;
    let mut delay: u64 = 0;
    for i in 0..tallies.len()
        invariant
            ts == tallies@,
            tallies_fit(ts),
            successes == field_total(ts.take(i as int), TallyField::Successes),
            delay == field_total(ts.take(i as int), TallyField::Delay),
    {
        proof {
            lemma_totals_take(ts, i as int, Seq::empty(), TallyField::Successes);
            lemma_totals_take(ts, i as int, Seq::empty(), TallyField::Delay);
            lemma_total_prefix(ts, i + 1, TallyField::Successes);
            lemma_total_prefix(ts, i + 1, TallyField::Delay);
        }
        successes = successes + tallies[i].successful_packets;
        delay = delay + tallies[i].total_delay_slots;
    }
    proof {
        assert(ts.take(ts.len() as int) =~= ts);
    }
    (successes, delay)
}

/// The report of a run that ended with `stations` after `collision_events` collisions.
pub fn build_report(scenario: &Scenario, stations: Vec<StationRuntime>, collision_events: u64) -> (
    report: SimulationReport)
    requires
        tallies_fit(station_tallies(stations@)),
    ensures
        report_matches(
            report,
            scenario.timing.total_slots,
            scenario.timing.payload_bits,
            station_tallies(stations@),
            collision_events,
        ),
{
    let tallies = tally_stations(&stations);
    let (total_successful_packets, total_delay_slots) = sum_tallies(&tallies);
    let per_class = group_by_class(&tallies);
    SimulationReport {
        total_slots: scenario.timing.total_slots,
        payload_bits: scenario.timing.payload_bits,
        aggregate: AggregateReport { total_successful_packets, collision_events, total_delay_slots },
        per_class,
    }
}

} // verus!
