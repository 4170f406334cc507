pub mod seed_schedule;

use vstd::prelude::*;

use crate::domain::config::{preset_timing, preset_timing_config, SweepParameters, TimingPreset};
use crate::domain::report::SimulationReport;
use crate::domain::scenario::{users_sum, Scenario};
use crate::error::SimError;
use crate::output::ExperimentRecord;
use crate::sim::dcf::contention::lemma_mixed_report_rows;
use crate::sim::dcf::engine::{class_error, run_outcome, scenario_error, scenario_fits};
use crate::sim::runner::{range_outcome, range_overflows, run, validate_range_step};

use self::seed_schedule::TrialSeedSchedule;

verus! {

/// A station class as a sweep describes it: name, users, minimum window.
pub type ClassShape = (Seq<char>, u32, u32);

/// `sc` runs with `seed`, the timing of the sweep's preset, its cap, and the classes `shape`.
pub open spec fn scenario_shape(sc: Scenario, seed: u64, params: SweepParameters, shape: Seq<ClassShape>) -> bool {
    &&& sc.seed == seed
    &&& sc.timing == preset_timing(params.timing_preset, params.total_slots, params.payload_bits)
    &&& sc.window.cw_max == params.cw_max
    &&& sc.classes@.len() == shape.len()
    &&& forall|i: int|
        0 <= i < shape.len() ==> {
            &&& (#[trigger] sc.classes@[i]).name@ == shape[i].0
            &&& sc.classes@[i].users == shape[i].1
            &&& sc.classes@[i].cw_min == shape[i].2
        }
}

/// One class "standard".
pub open spec fn standard_shape(users: u32, cw_min: u32) -> Seq<ClassShape> {
    seq![("standard"@, users, cw_min)]
}

/// Two classes, "lower-cw" then "higher-cw".
pub open spec fn mixed_shape(lower_users: u32, higher_users: u32, lower_cw_min: u32, higher_cw_min: u32) -> Seq<
    ClassShape,
> {
    seq![("lower-cw"@, lower_users, lower_cw_min), ("higher-cw"@, higher_users, higher_cw_min)]
}

pub open spec fn shape_class_error(shape: Seq<ClassShape>, cw_max: u32) -> Option<SimError>
    decreases shape.len(),
{
    if shape.len() == 0 {
        None
    } else if shape[0].1 == 0 {
        Some(SimError::EmptyClass)
    } else if shape[0].2 > cw_max {
        Some(SimError::CwMinAboveCwMax)
    } else {
        shape_class_error(shape.drop_first(), cw_max)
    }
}

/// The validation error of every scenario of a sweep with this shape.
pub open spec fn shape_error(params: SweepParameters, shape: Seq<ClassShape>) -> Option<SimError> {
    if params.total_slots == 0 {
        Some(SimError::ZeroTotalSlots)
    } else if params.payload_bits == 0 {
        Some(SimError::ZeroPayloadBits)
    } else if params.cw_max == 0 {
        Some(SimError::ZeroCwMax)
    } else if shape.len() == 0 {
        Some(SimError::NoClasses)
    } else {
        shape_class_error(shape, params.cw_max)
    }
}

/// The last trial's seed does not fit in a `u64`.
pub open spec fn seeds_overflow(params: SweepParameters) -> bool {
    params.base_seed + params.trials - 1 > u64::MAX
}

/// The error of running every trial of one scenario shape: its validation error first,
/// then a seed overflow.
pub open spec fn family_error(params: SweepParameters, shape: Seq<ClassShape>) -> Option<SimError> {
    if shape_error(params, shape) is Some {
        shape_error(params, shape)
    } else if seeds_overflow(params) {
        Some(SimError::SeedOverflow)
    } else {
        None
    }
}

pub open spec fn record_matches(
    rec: ExperimentRecord,
    label: Seq<char>,
    timing_preset: TimingPreset,
    trial: u32,
    seed: u64,
    total_users: u32,
    cw_min: Option<u32>,
    lower_cw_min: Option<u32>,
    higher_cw_min: Option<u32>,
    report: SimulationReport,
    class_index: int,
) -> bool {
    let class = report.per_class@[class_index];
    &&& rec.scenario@ == label
    &&& rec.timing_preset == timing_preset
    &&& rec.trial == trial
    &&& rec.seed == seed
    &&& rec.total_users == total_users
    &&& rec.cw_min == cw_min
    &&& rec.lower_cw_min == lower_cw_min
    &&& rec.higher_cw_min == higher_cw_min
    &&& rec.class_name == class.class_name
    &&& rec.class_users == class.users
    &&& rec.successful_packets == class.successful_packets
    &&& rec.collision_attempts == class.collision_attempts
    &&& rec.total_delay_slots == class.total_delay_slots
    &&& rec.total_slots == report.total_slots
    &&& rec.payload_bits == report.payload_bits
}

/// One record per class of `report`, in the report's class order.
pub open spec fn batch_matches(
    batch: Seq<ExperimentRecord>,
    label: Seq<char>,
    timing_preset: TimingPreset,
    trial: u32,
    seed: u64,
    total_users: u32,
    cw_min: Option<u32>,
    lower_cw_min: Option<u32>,
    higher_cw_min: Option<u32>,
    report: SimulationReport,
) -> bool {
    &&& batch.len() == report.per_class@.len()
    &&& forall|i: int|
        0 <= i < batch.len() ==> record_matches(
            #[trigger] batch[i],
            label,
            timing_preset,
            trial,
            seed,
            total_users,
            cw_min,
            lower_cw_min,
            higher_cw_min,
            report,
            i,
        )
}

/// `batch` holds the classes of a report that `run` may return for a scenario of this shape
/// with `seed`.
pub open spec fn trial_batch_ok(
    batch: Seq<ExperimentRecord>,
    label: Seq<char>,
    trial: u32,
    seed: u64,
    params: SweepParameters,
    shape: Seq<ClassShape>,
    total_users: u32,
    cw_min: Option<u32>,
    lower_cw_min: Option<u32>,
    higher_cw_min: Option<u32>,
) -> bool {
    exists|sc: Scenario, report: SimulationReport|
        #![trigger scenario_shape(sc, seed, params, shape), run_outcome(Ok(report), sc)]
        scenario_shape(sc, seed, params, shape) && run_outcome(Ok(report), sc) && batch_matches(
            batch,
            label,
            params.timing_preset,
            trial,
            seed,
            total_users,
            cw_min,
            lower_cw_min,
            higher_cw_min,
            report,
        )
}

/// `records` are the batches of all trials of one shape, trial by trial, trial `t` seeded
/// with `base_seed + t`.
pub open spec fn trials_ok(
    records: Seq<ExperimentRecord>,
    label: Seq<char>,
    params: SweepParameters,
    shape: Seq<ClassShape>,
    total_users: u32,
    cw_min: Option<u32>,
    lower_cw_min: Option<u32>,
    higher_cw_min: Option<u32>,
) -> bool {
    exists|batches: Seq<Seq<ExperimentRecord>>|
        #![trigger batches.flatten()]
        batches.len() == params.trials && records == batches.flatten() && forall|t: int|
            0 <= t < params.trials ==> trial_batch_ok(
                #[trigger] batches[t],
                label,
                t as u32,
                (params.base_seed + t) as u64,
                params,
                shape,
                total_users,
                cw_min,
                lower_cw_min,
                higher_cw_min,
            )
}

/// What running every trial of one shape gives.
pub open spec fn family_outcome(
    result: Result<Vec<ExperimentRecord>, SimError>,
    label: Seq<char>,
    params: SweepParameters,
    shape: Seq<ClassShape>,
    total_users: u32,
    cw_min: Option<u32>,
    lower_cw_min: Option<u32>,
    higher_cw_min: Option<u32>,
) -> bool {
    match result {
        Err(e) => family_error(params, shape) == Some(e),
        Ok(records) => family_error(params, shape) is None && trials_ok(
            records@,
            label,
            params,
            shape,
            total_users,
            cw_min,
            lower_cw_min,
            higher_cw_min,
        ),
    }
}

pub open spec fn shape_users(shape: Seq<ClassShape>) -> int
    decreases shape.len(),
{
    if shape.len() == 0 {
        0
    } else {
        shape_users(shape.drop_last()) + shape.last().1
    }
}

/// The runs of one shape stay within the sizes `run` can hold.
pub open spec fn shape_fits(params: SweepParameters, shape: Seq<ClassShape>) -> bool {
    &&& shape_users(shape) <= u32::MAX
    &&& shape_users(shape) * params.total_slots <= u64::MAX
}

proof fn lemma_shape_class_error(sc: Scenario, seed: u64, params: SweepParameters, shape: Seq<ClassShape>, k: int)
    requires
        scenario_shape(sc, seed, params, shape),
        0 <= k <= shape.len(),
    ensures
        class_error(sc.classes@.skip(k), params.cw_max) == shape_class_error(shape.skip(k), params.cw_max),
    decreases shape.len() - k,
{
    if k < shape.len() {
        lemma_shape_class_error(sc, seed, params, shape, k + 1);
        assert(sc.classes@.skip(k).drop_first() =~= sc.classes@.skip(k + 1));
        assert(shape.skip(k).drop_first() =~= shape.skip(k + 1));
        assert(sc.classes@.skip(k)[0] == sc.classes@[k]);
        assert(shape.skip(k)[0] == shape[k]);
    }
}

proof fn lemma_shape_users(sc: Scenario, seed: u64, params: SweepParameters, shape: Seq<ClassShape>, k: int)
    requires
        scenario_shape(sc, seed, params, shape),
        0 <= k <= shape.len(),
    ensures
        users_sum(sc.classes@.take(k)) == shape_users(shape.take(k)),
    decreases k,
{
    if k > 0 {
        lemma_shape_users(sc, seed, params, shape, k - 1);
        assert(sc.classes@.take(k).drop_last() =~= sc.classes@.take(k - 1));
        assert(shape.take(k).drop_last() =~= shape.take(k - 1));
    }
}

/// Every scenario of a shape fails validation as the shape does, and fits as it does.
pub proof fn lemma_shape_scenario(sc: Scenario, seed: u64, params: SweepParameters, shape: Seq<ClassShape>)
    requires
        scenario_shape(sc, seed, params, shape),
    ensures
        scenario_error(sc) == shape_error(params, shape),
        shape_fits(params, shape) ==> scenario_fits(sc),
{
    lemma_shape_class_error(sc, seed, params, shape, 0);
    assert(sc.classes@.skip(0) =~= sc.classes@);
    assert(shape.skip(0) =~= shape);
    lemma_shape_users(sc, seed, params, shape, shape.len() as int);
    assert(sc.classes@.take(shape.len() as int) =~= sc.classes@);
    assert(shape.take(shape.len() as int) =~= shape);
}

/// Every trial of the mixed-class experiment yields two records, "higher-cw" first and
/// "lower-cw" second, as the class names sort.
pub proof fn lemma_mixed_trial_rows(
    batch: Seq<ExperimentRecord>,
    trial: u32,
    seed: u64,
    params: SweepParameters,
    lower_users: u32,
    higher_users: u32,
    lower_cw_min: u32,
    higher_cw_min: u32,
)
    requires
        shape_fits(params, mixed_shape(lower_users, higher_users, lower_cw_min, higher_cw_min)),
        trial_batch_ok(
            batch,
            "mixed-classes"@,
            trial,
            seed,
            params,
            mixed_shape(lower_users, higher_users, lower_cw_min, higher_cw_min),
            (lower_users + higher_users) as u32,
            None,
            Some(lower_cw_min),
            Some(higher_cw_min),
        ),
    ensures
        batch.len() == 2,
        batch[0].class_name@ == "higher-cw"@,
        batch[1].class_name@ == "lower-cw"@,
{
    let shape = mixed_shape(lower_users, higher_users, lower_cw_min, higher_cw_min);
    let (sc, report) = choose|sc: Scenario, report: SimulationReport|
        #![trigger scenario_shape(sc, seed, params, shape), run_outcome(Ok(report), sc)]
        scenario_shape(sc, seed, params, shape) && run_outcome(Ok(report), sc) && batch_matches(
            batch,
            "mixed-classes"@,
            params.timing_preset,
            trial,
            seed,
            (lower_users + higher_users) as u32,
            None,
            Some(lower_cw_min),
            Some(higher_cw_min),
            report,
        );
    lemma_shape_scenario(sc, seed, params, shape);
    assert(sc.classes@[0].name@ == shape[0].0);
    assert(sc.classes@[1].name@ == shape[1].0);
    lemma_mixed_report_rows(report, sc);
    assert(record_matches(
        batch[0],
        "mixed-classes"@,
        params.timing_preset,
        trial,
        seed,
        (lower_users + higher_users) as u32,
        None,
        Some(lower_cw_min),
        Some(higher_cw_min),
        report,
        0,
    ));
    assert(record_matches(
        batch[1],
        "mixed-classes"@,
        params.timing_preset,
        trial,
        seed,
        (lower_users + higher_users) as u32,
        None,
        Some(lower_cw_min),
        Some(higher_cw_min),
        report,
        1,
    ));
}

proof fn lemma_flatten_pairs(batches: Seq<Seq<ExperimentRecord>>)
    requires
        forall|t: int| 0 <= t < batches.len() ==> (#[trigger] batches[t]).len() == 2,
    ensures
        batches.flatten().len() == 2 * batches.len(),
        forall|t: int|
            0 <= t < batches.len() ==> batches.flatten()[2 * t] == (#[trigger] batches[t])[0]
                && batches.flatten()[2 * t + 1] == batches[t][1],
    decreases batches.len(),
{
    if batches.len() > 0 {
        let init = batches.drop_last();
        assert forall|t: int| 0 <= t < init.len() implies (#[trigger] init[t]).len() == 2 by {
            assert(init[t] == batches[t]);
        }
        lemma_flatten_pairs(init);
        init.lemma_flatten_push(batches.last());
        assert(init.push(batches.last()) =~= batches);
        assert forall|t: int| 0 <= t < batches.len() implies batches.flatten()[2 * t] == (#[trigger] batches[t])[0]
            && batches.flatten()[2 * t + 1] == batches[t][1] by {
            if t < init.len() {
                assert(init[t] == batches[t]);
            }
        }
    }
}

/// Trial `t` of the mixed-class experiment: its "higher-cw" record at `2t`, its
/// "lower-cw" record at `2t + 1`, both of trial `t` seeded with `base_seed + t`.
pub open spec fn mixed_pair(records: Seq<ExperimentRecord>, t: int, base_seed: u64) -> bool {
    &&& records[2 * t].class_name@ == "higher-cw"@
    &&& records[2 * t + 1].class_name@ == "lower-cw"@
    &&& records[2 * t].trial == t
    &&& records[2 * t + 1].trial == t
    &&& records[2 * t].seed == base_seed + t
    &&& records[2 * t + 1].seed == base_seed + t
}

/// The records of the mixed-class experiment come two per trial, trial by trial,
/// "higher-cw" first.
pub proof fn lemma_mixed_records(
    records: Seq<ExperimentRecord>,
    params: SweepParameters,
    lower_users: u32,
    higher_users: u32,
    lower_cw_min: u32,
    higher_cw_min: u32,
)
    requires
        shape_fits(params, mixed_shape(lower_users, higher_users, lower_cw_min, higher_cw_min)),
        family_error(params, mixed_shape(lower_users, higher_users, lower_cw_min, higher_cw_min)) is None,
        trials_ok(
            records,
            "mixed-classes"@,
            params,
            mixed_shape(lower_users, higher_users, lower_cw_min, higher_cw_min),
            (lower_users + higher_users) as u32,
            None,
            Some(lower_cw_min),
            Some(higher_cw_min),
        ),
    ensures
        records.len() == 2 * params.trials,
        forall|t: int| 0 <= t < params.trials ==> #[trigger] mixed_pair(records, t, params.base_seed),
{
    let shape = mixed_shape(lower_users, higher_users, lower_cw_min, higher_cw_min);
    let total = (lower_users + higher_users) as u32;
    let batches = choose|batches: Seq<Seq<ExperimentRecord>>|
        #![trigger batches.flatten()]
        batches.len() == params.trials && records == batches.flatten() && forall|t: int|
            0 <= t < params.trials ==> trial_batch_ok(
                #[trigger] batches[t],
                "mixed-classes"@,
                t as u32,
                (params.base_seed + t) as u64,
                params,
                shape,
                total,
                None,
                Some(lower_cw_min),
                Some(higher_cw_min),
            );
    assert forall|t: int| 0 <= t < batches.len() implies {
        &&& (#[trigger] batches[t]).len() == 2
        &&& batches[t][0].class_name@ == "higher-cw"@
        &&& batches[t][1].class_name@ == "lower-cw"@
        &&& batches[t][0].trial == t && batches[t][1].trial == t
        &&& batches[t][0].seed == params.base_seed + t && batches[t][1].seed == params.base_seed + t
    } by {
        assert(!seeds_overflow(params));
        let seed = (params.base_seed + t) as u64;
        assert(seed == params.base_seed + t);
        assert(trial_batch_ok(
            batches[t],
            "mixed-classes"@,
            t as u32,
            seed,
            params,
            shape,
            total,
            None,
            Some(lower_cw_min),
            Some(higher_cw_min),
        ));
        lemma_mixed_trial_rows(batches[t], t as u32, seed, params, lower_users, higher_users, lower_cw_min, higher_cw_min);
        let (sc, report) = choose|sc: Scenario, report: SimulationReport|
            #![trigger scenario_shape(sc, seed, params, shape), run_outcome(Ok(report), sc)]
            scenario_shape(sc, seed, params, shape) && run_outcome(Ok(report), sc) && batch_matches(
                batches[t],
                "mixed-classes"@,
                params.timing_preset,
                t as u32,
                seed,
                total,
                None,
                Some(lower_cw_min),
                Some(higher_cw_min),
                report,
            );
        assert(record_matches(batches[t][0], "mixed-classes"@, params.timing_preset, t as u32, seed, total, None,
            Some(lower_cw_min), Some(higher_cw_min), report, 0));
        assert(record_matches(batches[t][1], "mixed-classes"@, params.timing_preset, t as u32, seed, total, None,
            Some(lower_cw_min), Some(higher_cw_min), report, 1));
    }
    lemma_flatten_pairs(batches);
    assert forall|t: int| 0 <= t < params.trials implies #[trigger] mixed_pair(records, t, params.base_seed) by {
        assert(batches[t].len() == 2);
    }
}

/// What a sweep builds its scenarios from.
enum TrialPlan {
    Standard { users: u32, cw_min: u32 },
    Mixed { lower_users: u32, higher_users: u32, lower_cw_min: u32, higher_cw_min: u32 },
}

spec fn plan_shape(plan: TrialPlan) -> Seq<ClassShape> {
    match plan {
        TrialPlan::Standard { users, cw_min } => standard_shape(users, cw_min),
        TrialPlan::Mixed { lower_users, higher_users, lower_cw_min, higher_cw_min } => mixed_shape(
            lower_users,
            higher_users,
            lower_cw_min,
            higher_cw_min,
        ),
    }
}

fn standard_scenario(users: u32, cw_min: u32, seed: u64, params: &SweepParameters) -> (scenario: Scenario)
    ensures
        scenario_shape(scenario, seed, *params, standard_shape(users, cw_min)),
{
    let scenario = Scenario::standard(
        users,
        cw_min,
        seed,
        preset_timing_config(params.timing_preset, params.total_slots, params.payload_bits),
        params.cw_max,
    );
    scenario
}

fn mixed_scenario(
    lower_users: u32,
    higher_users: u32,
    lower_cw_min: u32,
    higher_cw_min: u32,
    seed: u64,
    params: &SweepParameters,
) -> (scenario: Scenario)
    ensures
        scenario_shape(scenario, seed, *params, mixed_shape(lower_users, higher_users, lower_cw_min, higher_cw_min)),
{
    Scenario::mixed(
        lower_users,
        higher_users,
        lower_cw_min,
        higher_cw_min,
        seed,
        preset_timing_config(params.timing_preset, params.total_slots, params.payload_bits),
        params.cw_max,
    )
}

fn plan_scenario(plan: &TrialPlan, seed: u64, params: &SweepParameters) -> (scenario: Scenario)
    ensures
        scenario_shape(scenario, seed, *params, plan_shape(*plan)),
{
    match plan {
        TrialPlan::Standard { users, cw_min } => standard_scenario(*users, *cw_min, seed, params),
        TrialPlan::Mixed { lower_users, higher_users, lower_cw_min, higher_cw_min } => mixed_scenario(
            *lower_users,
            *higher_users,
            *lower_cw_min,
            *higher_cw_min,
            seed,
            params,
        ),
    }
}

/// One record per class of `report`.
fn class_records(
    report: &SimulationReport,
    label: &str,
    timing_preset: TimingPreset,
    trial: u32,
    seed: u64,
    total_users: u32,
    cw_min: Option<u32>,
    lower_cw_min: Option<u32>,
    higher_cw_min: Option<u32>,
) -> (batch: Vec<ExperimentRecord>)
    ensures
        batch_matches(batch@, label@, timing_preset, trial, seed, total_users, cw_min, lower_cw_min, higher_cw_min, *report),
{
    let mut batch: Vec<ExperimentRecord> = Vec::new();
    for i in 0..report.per_class.len()
        invariant
            batch@.len() == i,
            forall|j: int|
                0 <= j < i ==> record_matches(
                    #[trigger] batch@[j],
                    label@,
                    timing_preset,
                    trial,
                    seed,
                    total_users,
                    cw_min,
                    lower_cw_min,
                    higher_cw_min,
                    *report,
                    j,
                ),
    {
        let class = &report.per_class[i];
        batch.push(
            ExperimentRecord {
                scenario: label.to_owned(),
                timing_preset,
                trial,
                seed,
                total_users,
                cw_min,
                lower_cw_min,
                higher_cw_min,
                class_name: class.class_name.clone(),
                class_users: class.users,
                successful_packets: class.successful_packets,
                collision_attempts: class.collision_attempts,
                total_delay_slots: class.total_delay_slots,
                total_slots: report.total_slots,
                payload_bits: report.payload_bits,
            },
        );
    }
    batch
}

/// Runs every trial of one plan and collects the class records, trial by trial.
fn collect_trial_record_batches(
    schedule: &TrialSeedSchedule,
    plan: &TrialPlan,
    params: &SweepParameters,
    label: &str,
    total_users: u32,
    cw_min: Option<u32>,
    lower_cw_min: Option<u32>,
    higher_cw_min: Option<u32>,
) -> (result: Result<Vec<ExperimentRecord>, SimError>)
    requires
        schedule.base_seed == params.base_seed,
        schedule.trials == params.trials,
        params.trials > 0,
        shape_fits(*params, plan_shape(*plan)),
    ensures
        family_outcome(
            result,
            label@,
            *params,
            plan_shape(*plan),
            total_users,
            cw_min,
            lower_cw_min,
            higher_cw_min,
        ),
{
    let ghost shape = plan_shape(*plan);
    let mut records: Vec<ExperimentRecord> = Vec::new();
    let ghost mut batches: Seq<Seq<ExperimentRecord>> = Seq::empty();
    for trial in 0..schedule.trials
        invariant
            schedule.base_seed == params.base_seed,
            schedule.trials == params.trials,
            params.trials > 0,
            shape == plan_shape(*plan),
            shape_fits(*params, shape),
            trial > 0 ==> shape_error(*params, shape) is None,
            trial > 0 ==> params.base_seed + trial - 1 <= u64::MAX,
            batches.len() == trial,
            records@ == batches.flatten(),
            forall|t: int|
                0 <= t < trial ==> trial_batch_ok(
                    #[trigger] batches[t],
                    label@,
                    t as u32,
                    (params.base_seed + t) as u64,
                    *params,
                    shape,
                    total_users,
                    cw_min,
                    lower_cw_min,
                    higher_cw_min,
                ),
    {
        let seed = match schedule.seed_for_trial(trial) {
            Ok(seed) => seed,
            Err(e) => return Err(e),
        };
        let scenario = plan_scenario(plan, seed, params);
        proof {
            lemma_shape_scenario(scenario, seed, *params, shape);
        }
        let report = match run(&scenario) {
            Ok(report) => report,
            Err(e) => return Err(e),
        };
        let batch = class_records(&report, label, params.timing_preset, trial, seed, total_users, cw_min, lower_cw_min, higher_cw_min);
        let ghost old_batches = batches;
        proof {
            assert(trial_batch_ok(
                batch@,
                label@,
                trial,
                seed,
                *params,
                shape,
                total_users,
                cw_min,
                lower_cw_min,
                higher_cw_min,
            ));
            batches.lemma_flatten_push(batch@);
            batches = batches.push(batch@);
            assert forall|t: int| 0 <= t < trial + 1 implies trial_batch_ok(
                #[trigger] batches[t],
                label@,
                t as u32,
                (params.base_seed + t) as u64,
                *params,
                shape,
                total_users,
                cw_min,
                lower_cw_min,
                higher_cw_min,
            ) by {
                if t < trial {
                    assert(batches[t] == old_batches[t]);
                }
            }
        }
        let mut batch = batch;
        records.append(&mut batch);
    }
    proof {
        assert(trials_ok(records@, label@, *params, shape, total_users, cw_min, lower_cw_min, higher_cw_min));
    }
    Ok(records)
}

/// The shape of one point of a single-class sweep: either the user count varies and the
/// window is fixed, or the other way round.
pub open spec fn point_shape(vary_users: bool, fixed: u32, value: u32) -> Seq<ClassShape> {
    if vary_users {
        standard_shape(value, fixed)
    } else {
        standard_shape(fixed, value)
    }
}

pub open spec fn point_users(vary_users: bool, fixed: u32, value: u32) -> u32 {
    if vary_users {
        value
    } else {
        fixed
    }
}

pub open spec fn point_cw(vary_users: bool, fixed: u32, value: u32) -> u32 {
    if vary_users {
        fixed
    } else {
        value
    }
}

/// The error of the first point, in sweep order, whose trials cannot all run.
pub open spec fn first_point_error(values: Seq<u32>, params: SweepParameters, vary_users: bool, fixed: u32) -> Option<
    SimError,
>
    decreases values.len(),
{
    if values.len() == 0 {
        None
    } else if family_error(params, point_shape(vary_users, fixed, values[0])) is Some {
        family_error(params, point_shape(vary_users, fixed, values[0]))
    } else {
        first_point_error(values.drop_first(), params, vary_users, fixed)
    }
}

/// `records` are the trial records of every point, point by point.
pub open spec fn sweep_records_ok(
    records: Seq<ExperimentRecord>,
    values: Seq<u32>,
    label: Seq<char>,
    params: SweepParameters,
    vary_users: bool,
    fixed: u32,
) -> bool {
    exists|parts: Seq<Seq<ExperimentRecord>>|
        #![trigger parts.flatten()]
        parts.len() == values.len() && records == parts.flatten() && forall|i: int|
            0 <= i < values.len() ==> trials_ok(
                #[trigger] parts[i],
                label,
                params,
                point_shape(vary_users, fixed, values[i]),
                point_users(vary_users, fixed, values[i]),
                Some(point_cw(vary_users, fixed, values[i])),
                None,
                None,
            )
}

/// The points of a sweep over `min..=max` by `step`.
pub open spec fn sweep_values(min: u32, max: u32, step: u32) -> Seq<u32> {
    Seq::new(((max - min) / (step as int) + 1) as nat, |k: int| (min + k * step) as u32)
}

/// What a single-class sweep over `min..=max` by `step` gives: a zero trial count first,
/// then the range errors, then the first point whose trials cannot run; else the records
/// of every point, trial and class.
pub open spec fn sweep_outcome(
    result: Result<Vec<ExperimentRecord>, SimError>,
    min: u32,
    max: u32,
    step: u32,
    params: SweepParameters,
    vary_users: bool,
    fixed: u32,
    label: Seq<char>,
) -> bool {
    if params.trials == 0 {
        result == Err::<Vec<ExperimentRecord>, SimError>(SimError::ZeroTrials)
    } else if step == 0 {
        result == Err::<Vec<ExperimentRecord>, SimError>(SimError::ZeroStep)
    } else if min > max {
        result == Err::<Vec<ExperimentRecord>, SimError>(SimError::RangeStartAfterEnd)
    } else if range_overflows(min, max, step) {
        result == Err::<Vec<ExperimentRecord>, SimError>(SimError::RangeOverflow)
    } else {
        let values = sweep_values(min, max, step);
        match first_point_error(values, params, vary_users, fixed) {
            Some(e) => result == Err::<Vec<ExperimentRecord>, SimError>(e),
            None => result matches Ok(records) && sweep_records_ok(
                records@,
                values,
                label,
                params,
                vary_users,
                fixed,
            ),
        }
    }
}

proof fn lemma_standard_shape_users(users: u32, cw_min: u32)
    ensures
        shape_users(standard_shape(users, cw_min)) == users,
{
    let shape = standard_shape(users, cw_min);
    assert(shape.drop_last() =~= Seq::<ClassShape>::empty());
    assert(shape_users(Seq::<ClassShape>::empty()) == 0);
    assert(shape.last() == shape[0]);
}

/// What running every trial of every point of `values` gives: the error of the first point
/// whose trials cannot run, else the records of every point, trial and class.
pub open spec fn points_outcome(
    result: Result<Vec<ExperimentRecord>, SimError>,
    values: Seq<u32>,
    params: SweepParameters,
    vary_users: bool,
    fixed: u32,
    label: Seq<char>,
) -> bool {
    match first_point_error(values, params, vary_users, fixed) {
        Some(e) => result == Err::<Vec<ExperimentRecord>, SimError>(e),
        None => result matches Ok(records) && sweep_records_ok(records@, values, label, params, vary_users, fixed),
    }
}

/// Runs every trial of every point of a single-class sweep, point by point.
fn run_points(
    values: &Vec<u32>,
    schedule: &TrialSeedSchedule,
    params: &SweepParameters,
    vary_users: bool,
    fixed: u32,
    label: &str,
) -> (result: Result<Vec<ExperimentRecord>, SimError>)
    requires
        schedule.base_seed == params.base_seed,
        schedule.trials == params.trials,
        params.trials > 0,
        forall|k: int| 0 <= k < values@.len() ==> point_users(vary_users, fixed, #[trigger] values@[k]) * params.total_slots <= u64::MAX,
    ensures
        points_outcome(result, values@, *params, vary_users, fixed, label@),
{
    proof {
        assert(values@.skip(0) =~= values@);
    }
    let mut records: Vec<ExperimentRecord> = Vec::new();
    let ghost mut parts: Seq<Seq<ExperimentRecord>> = Seq::empty();
    for vi in 0..values.len()
        invariant
            schedule.base_seed == params.base_seed,
            schedule.trials == params.trials,
            params.trials > 0,
            forall|k: int| 0 <= k < values@.len() ==> point_users(vary_users, fixed, #[trigger] values@[k]) * params.total_slots <= u64::MAX,
            first_point_error(values@, *params, vary_users, fixed) == first_point_error(
                values@.skip(vi as int),
                *params,
                vary_users,
                fixed,
            ),
            parts.len() == vi,
            records@ == parts.flatten(),
            forall|i: int|
                0 <= i < vi ==> trials_ok(
                    #[trigger] parts[i],
                    label@,
                    *params,
                    point_shape(vary_users, fixed, values@[i]),
                    point_users(vary_users, fixed, values@[i]),
                    Some(point_cw(vary_users, fixed, values@[i])),
                    None,
                    None,
                ),
    {
        let value = values[vi];
        let users = if vary_users { value } else { fixed };
        let cw_min = if vary_users { fixed } else { value };
        let plan = TrialPlan::Standard { users, cw_min };
        proof {
            assert(values@.skip(vi as int)[0] == value);
            assert(values@.skip(vi as int).drop_first() =~= values@.skip(vi + 1));
            lemma_standard_shape_users(users, cw_min);
            assert(point_users(vary_users, fixed, values@[vi as int]) * params.total_slots <= u64::MAX);
            assert(plan_shape(plan) == point_shape(vary_users, fixed, value));
        }
        let batch = match collect_trial_record_batches(
            schedule,
            &plan,
            params,
            label,
            users,
            Some(cw_min),
            None,
            None,
        ) {
            Ok(batch) => batch,
            Err(e) => {
                proof {
                    assert(family_error(*params, point_shape(vary_users, fixed, value)) == Some(e));
                    assert(first_point_error(values@.skip(vi as int), *params, vary_users, fixed) == Some(
                        e,
                    ));
                }
                return Err(e);
            },
        };
        let ghost old_parts = parts;
        proof {
            parts.lemma_flatten_push(batch@);
            parts = parts.push(batch@);
            assert forall|i: int| 0 <= i < vi + 1 implies trials_ok(
                #[trigger] parts[i],
                label@,
                *params,
                point_shape(vary_users, fixed, values@[i]),
                point_users(vary_users, fixed, values@[i]),
                Some(point_cw(vary_users, fixed, values@[i])),
                None,
                None,
            ) by {
                if i < vi {
                    assert(parts[i] == old_parts[i]);
                }
            }
        }
        let mut batch = batch;
        records.append(&mut batch);
    }
    proof {
        assert(values@.skip(values@.len() as int) =~= Seq::<u32>::empty());
        assert(sweep_records_ok(records@, values@, label@, *params, vary_users, fixed));
    }
    Ok(records)
}

/// Runs every trial of every point of a single-class sweep over `min..=max` by `step`.
fn sweep_points(
    min: u32,
    max: u32,
    step: u32,
    params: &SweepParameters,
    vary_users: bool,
    fixed: u32,
    label: &str,
) -> (result: Result<Vec<ExperimentRecord>, SimError>)
    requires
        (if vary_users { max } else { fixed }) * params.total_slots <= u64::MAX,
    ensures
        sweep_outcome(result, min, max, step, *params, vary_users, fixed, label@),
{
    let schedule = match TrialSeedSchedule::new(params.base_seed, params.trials) {
        Ok(schedule) => schedule,
        Err(e) => return Err(e),
    };
    let values = match validate_range_step(min, max, step) {
        Ok(values) => values,
        Err(e) => return Err(e),
    };
    proof {
        assert(values@ =~= sweep_values(min, max, step));
        assert forall|k: int| 0 <= k < values@.len() implies point_users(vary_users, fixed, #[trigger] values@[k])
            * params.total_slots <= u64::MAX by {
            crate::sim::runner::lemma_steps_within(max - min, step as int, k);
            let users: int = point_users(vary_users, fixed, values@[k]) as int;
            let bound: int = if vary_users { max as int } else { fixed as int };
            assert(users <= bound);
            assert(users * params.total_slots <= bound * params.total_slots) by (nonlinear_arith)
                requires
                    users <= bound,
                    params.total_slots >= 0,
            ;
        }
    }
    run_points(&values, &schedule, params, vary_users, fixed, label)
}

/// Sweeps the number of users of one "standard" class over `min_users..=max_users` by
/// `step`, with `params.trials` seeded trials per point.
pub fn sweep_users(min_users: u32, max_users: u32, step: u32, cw_min: u32, params: &SweepParameters) -> (
    result: Result<Vec<ExperimentRecord>, SimError>)
    requires
        max_users * params.total_slots <= u64::MAX,
    ensures
        sweep_outcome(result, min_users, max_users, step, *params, true, cw_min, "sweep-users"@),
{
    sweep_points(min_users, max_users, step, params, true, cw_min, "sweep-users")
}

/// Sweeps the minimum window of one "standard" class of `users` users over
/// `min_cw..=max_cw` by `step`, with `params.trials` seeded trials per point.
pub fn sweep_cwmins(users: u32, min_cw: u32, max_cw: u32, step: u32, params: &SweepParameters) -> (
    result: Result<Vec<ExperimentRecord>, SimError>)
    requires
        users * params.total_slots <= u64::MAX,
    ensures
        sweep_outcome(result, min_cw, max_cw, step, *params, false, users, "sweep-cw"@),
{
    sweep_points(min_cw, max_cw, step, params, false, users, "sweep-cw")
}

/// Runs `params.trials` seeded trials of one "standard" class of `users` users for each
/// minimum window of `cw_values`, in list order.
pub fn sweep_cw_values(users: u32, cw_values: &Vec<u32>, params: &SweepParameters) -> (
    result: Result<Vec<ExperimentRecord>, SimError>)
    requires
        users * params.total_slots <= u64::MAX,
    ensures
        params.trials == 0 ==> result == Err::<Vec<ExperimentRecord>, SimError>(SimError::ZeroTrials),
        params.trials > 0 ==> points_outcome(result, cw_values@, *params, false, users, "sweep-cw"@),
{
    let schedule = match TrialSeedSchedule::new(params.base_seed, params.trials) {
        Ok(schedule) => schedule,
        Err(e) => return Err(e),
    };
    run_points(cw_values, &schedule, params, false, users, "sweep-cw")
}

/// Runs `params.trials` seeded trials of the two-class scenario "lower-cw" / "higher-cw".
pub fn mixed_classes(
    lower_users: u32,
    higher_users: u32,
    lower_cw_min: u32,
    higher_cw_min: u32,
    params: &SweepParameters,
) -> (result: Result<Vec<ExperimentRecord>, SimError>)
    requires
        lower_users + higher_users <= u32::MAX,
        (lower_users + higher_users) * params.total_slots <= u64::MAX,
    ensures
        params.trials == 0 ==> result == Err::<Vec<ExperimentRecord>, SimError>(SimError::ZeroTrials),
        params.trials > 0 ==> family_outcome(
            result,
            "mixed-classes"@,
            *params,
            mixed_shape(lower_users, higher_users, lower_cw_min, higher_cw_min),
            (lower_users + higher_users) as u32,
            None,
            Some(lower_cw_min),
            Some(higher_cw_min),
        ),
{
    let schedule = match TrialSeedSchedule::new(params.base_seed, params.trials) {
        Ok(schedule) => schedule,
        Err(e) => return Err(e),
    };
    let plan = TrialPlan::Mixed { lower_users, higher_users, lower_cw_min, higher_cw_min };
    let scenario_template = mixed_scenario(lower_users, higher_users, lower_cw_min, higher_cw_min, params.base_seed, params);
    proof {
        let shape = mixed_shape(lower_users, higher_users, lower_cw_min, higher_cw_min);
        assert(shape.drop_last().drop_last() =~= Seq::<ClassShape>::empty());
        assert(shape_users(Seq::<ClassShape>::empty()) == 0);
        assert(shape.drop_last().last() == shape[0]);
        assert(shape.last() == shape[1]);
        assert(shape_users(shape.drop_last()) == lower_users);
        assert(shape_users(shape) == lower_users + higher_users);
        lemma_shape_users(scenario_template, params.base_seed, *params, shape, 2);
        assert(scenario_template.classes@.take(2) =~= scenario_template.classes@);
        assert(shape.take(2) =~= shape);
    }
    let total_users = scenario_template.total_users();
    collect_trial_record_batches(
        &schedule,
        &plan,
        params,
        "mixed-classes",
        total_users,
        None,
        Some(lower_cw_min),
        Some(higher_cw_min),
    )
}

} // verus!
