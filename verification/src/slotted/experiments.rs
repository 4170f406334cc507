use vstd::prelude::*;

use crate::domain::config::{SimulationConfig, SimulationSettings, SweepParameters, TimingPreset};
use crate::error::SimError;
use crate::experiments::{
    mixed_shape, point_cw, point_shape, point_users, seeds_overflow, shape_fits, shape_users, standard_shape,
    sweep_values, ClassShape,
};
use crate::output::ExperimentRecord;
use crate::sim::runner::{range_overflows, validate_range_step};

use super::metrics::SimulationResult;
use super::simulator::{config_class_error, config_error, simulate, slotted_outcome};

verus! {

/// `config` has the sweep's slots, payload, cap and timing preset, `seed`, and the classes
/// `shape`.
pub open spec fn config_shape(config: SimulationConfig, seed: u64, params: SweepParameters, shape: Seq<ClassShape>) -> bool {
    &&& config.total_slots == params.total_slots
    &&& config.payload_bits == params.payload_bits
    &&& config.cw_max == params.cw_max
    &&& config.seed == seed
    &&& config.timing_preset == params.timing_preset
    &&& config.classes@.len() == shape.len()
    &&& forall|i: int|
        0 <= i < shape.len() ==> {
            &&& (#[trigger] config.classes@[i]).name@ == shape[i].0
            &&& config.classes@[i].users == shape[i].1
            &&& config.classes@[i].cw_min == shape[i].2
        }
}

pub open spec fn shape_class_error(shape: Seq<ClassShape>, cw_max: u32) -> Option<SimError>
    decreases shape.len(),
{
    if shape.len() == 0 {
        None
    } else if shape[0].1 == 0 {
        Some(SimError::EmptyClass)
    } else if shape[0].2 == 0 {
        Some(SimError::ZeroCwMin)
    } else if shape[0].2 > cw_max {
        Some(SimError::CwMinAboveCwMax)
    } else {
        shape_class_error(shape.drop_first(), cw_max)
    }
}

/// The validation error of every configuration of this shape.
pub open spec fn shape_error(params: SweepParameters, shape: Seq<ClassShape>) -> Option<SimError> {
    if params.total_slots == 0 {
        Some(SimError::ZeroTotalSlots)
    } else if params.payload_bits == 0 {
        Some(SimError::ZeroPayloadBits)
    } else if shape.len() == 0 {
        Some(SimError::NoClasses)
    } else {
        shape_class_error(shape, params.cw_max)
    }
}

/// The error of running every trial of one shape; without trials nothing runs.
pub open spec fn trials_error(params: SweepParameters, shape: Seq<ClassShape>) -> Option<SimError> {
    if params.trials == 0 {
        None
    } else {
        shape_error(params, shape)
    }
}

/// The trials of this shape would run up to a seed past `u64::MAX`.
pub open spec fn runs_past_seed_limit(params: SweepParameters, shape: Seq<ClassShape>) -> bool {
    params.trials > 0 && shape_error(params, shape) is None && seeds_overflow(params)
}

pub open spec fn record_matches(
    rec: ExperimentRecord,
    label: Seq<char>,
    timing_preset: TimingPreset,
    trial: u32,
    seed: u64,
    total_users: u32,
    cw_min: Option<u32>,
    lower_cw_min: Option<u32>,
    higher_cw_min: Option<u32>,
    result: SimulationResult,
    class_index: int,
) -> bool {
    let class = result.per_class@[class_index];
    &&& rec.scenario@ == label
    &&& rec.timing_preset == timing_preset
    &&& rec.trial == trial
    &&& rec.seed == seed
    &&& rec.total_users == total_users
    &&& rec.cw_min == cw_min
    &&& rec.lower_cw_min == lower_cw_min
    &&& rec.higher_cw_min == higher_cw_min
    &&& rec.class_name == class.class_name
    &&& rec.class_users == class.users
    &&& rec.successful_packets == class.successful_packets
    &&& rec.collision_attempts == class.collision_attempts
    &&& rec.total_delay_slots == class.total_delay_slots
    &&& rec.total_slots == result.total_slots
    &&& rec.payload_bits == result.payload_bits
}

/// One record per class of `result`, in the result's class order.
pub open spec fn batch_matches(
    batch: Seq<ExperimentRecord>,
    label: Seq<char>,
    timing_preset: TimingPreset,
    trial: u32,
    seed: u64,
    total_users: u32,
    cw_min: Option<u32>,
    lower_cw_min: Option<u32>,
    higher_cw_min: Option<u32>,
    result: SimulationResult,
) -> bool {
    &&& batch.len() == result.per_class@.len()
    &&& forall|i: int|
        0 <= i < batch.len() ==> record_matches(
            #[trigger] batch[i],
            label,
            timing_preset,
            trial,
            seed,
            total_users,
            cw_min,
            lower_cw_min,
            higher_cw_min,
            result,
            i,
        )
}

/// `batch` holds the classes of a result that `simulate` may return for a configuration of
/// this shape with `seed`.
pub open spec fn trial_batch_ok(
    batch: Seq<ExperimentRecord>,
    label: Seq<char>,
    trial: u32,
    seed: u64,
    params: SweepParameters,
    shape: Seq<ClassShape>,
    total_users: u32,
    cw_min: Option<u32>,
    lower_cw_min: Option<u32>,
    higher_cw_min: Option<u32>,
) -> bool {
    exists|config: SimulationConfig, result: SimulationResult|
        #![trigger config_shape(config, seed, params, shape), slotted_outcome(Ok(result), config)]
        config_shape(config, seed, params, shape) && slotted_outcome(Ok(result), config) && batch_matches(
            batch,
            label,
            params.timing_preset,
            trial,
            seed,
            total_users,
            cw_min,
            lower_cw_min,
            higher_cw_min,
            result,
        )
}

/// `records` are the batches of all trials of one shape, trial by trial, trial `t` seeded
/// with `base_seed + t`.
pub open spec fn trials_ok(
    records: Seq<ExperimentRecord>,
    label: Seq<char>,
    params: SweepParameters,
    shape: Seq<ClassShape>,
    total_users: u32,
    cw_min: Option<u32>,
    lower_cw_min: Option<u32>,
    higher_cw_min: Option<u32>,
) -> bool {
    exists|batches: Seq<Seq<ExperimentRecord>>|
        #![trigger batches.flatten()]
        batches.len() == params.trials && records == batches.flatten() && forall|t: int|
            0 <= t < params.trials ==> trial_batch_ok(
                #[trigger] batches[t],
                label,
                t as u32,
                (params.base_seed + t) as u64,
                params,
                shape,
                total_users,
                cw_min,
                lower_cw_min,
                higher_cw_min,
            )
}

/// What running every trial of one shape gives.
pub open spec fn family_outcome(
    result: Result<Vec<ExperimentRecord>, SimError>,
    label: Seq<char>,
    params: SweepParameters,
    shape: Seq<ClassShape>,
    total_users: u32,
    cw_min: Option<u32>,
    lower_cw_min: Option<u32>,
    higher_cw_min: Option<u32>,
) -> bool {
    match result {
        Err(e) => trials_error(params, shape) == Some(e),
        Ok(records) => trials_error(params, shape) is None && trials_ok(
            records@,
            label,
            params,
            shape,
            total_users,
            cw_min,
            lower_cw_min,
            higher_cw_min,
        ),
    }
}

proof fn lemma_config_class_error(config: SimulationConfig, seed: u64, params: SweepParameters, shape: Seq<ClassShape>, k: int)
    requires
        config_shape(config, seed, params, shape),
        0 <= k <= shape.len(),
    ensures
        config_class_error(config.classes@.skip(k), params.cw_max) == shape_class_error(shape.skip(k), params.cw_max),
    decreases shape.len() - k,
{
    if k < shape.len() {
        lemma_config_class_error(config, seed, params, shape, k + 1);
        assert(config.classes@.skip(k).drop_first() =~= config.classes@.skip(k + 1));
        assert(shape.skip(k).drop_first() =~= shape.skip(k + 1));
        assert(config.classes@.skip(k)[0] == config.classes@[k]);
        assert(shape.skip(k)[0] == shape[k]);
    }
}

proof fn lemma_config_users(config: SimulationConfig, seed: u64, params: SweepParameters, shape: Seq<ClassShape>, k: int)
    requires
        config_shape(config, seed, params, shape),
        0 <= k <= shape.len(),
    ensures
        crate::domain::config::config_users_sum(config.classes@.take(k)) == shape_users(shape.take(k)),
    decreases k,
{
    if k > 0 {
        lemma_config_users(config, seed, params, shape, k - 1);
        assert(config.classes@.take(k).drop_last() =~= config.classes@.take(k - 1));
        assert(shape.take(k).drop_last() =~= shape.take(k - 1));
    }
}

/// Every configuration of a shape fails validation as the shape does and holds as many
/// stations.
pub proof fn lemma_config_shape(config: SimulationConfig, seed: u64, params: SweepParameters, shape: Seq<ClassShape>)
    requires
        config_shape(config, seed, params, shape),
    ensures
        config_error(config) == shape_error(params, shape),
        config.users_spec() == shape_users(shape),
{
    lemma_config_class_error(config, seed, params, shape, 0);
    assert(config.classes@.skip(0) =~= config.classes@);
    assert(shape.skip(0) =~= shape);
    lemma_config_users(config, seed, params, shape, shape.len() as int);
    assert(config.classes@.take(shape.len() as int) =~= config.classes@);
    assert(shape.take(shape.len() as int) =~= shape);
}

/// What a sweep builds its configurations from.
enum ConfigPlan {
    Standard { users: u32, cw_min: u32 },
    Mixed { lower_users: u32, higher_users: u32, lower_cw_min: u32, higher_cw_min: u32 },
}

spec fn plan_shape(plan: ConfigPlan) -> Seq<ClassShape> {
    match plan {
        ConfigPlan::Standard { users, cw_min } => standard_shape(users, cw_min),
        ConfigPlan::Mixed { lower_users, higher_users, lower_cw_min, higher_cw_min } => mixed_shape(
            lower_users,
            higher_users,
            lower_cw_min,
            higher_cw_min,
        ),
    }
}

fn plan_config(plan: &ConfigPlan, seed: u64, params: &SweepParameters) -> (config: SimulationConfig)
    ensures
        config_shape(config, seed, *params, plan_shape(*plan)),
{
    let settings = SimulationSettings {
        total_slots: params.total_slots,
        payload_bits: params.payload_bits,
        cw_max: params.cw_max,
        seed,
        timing_preset: params.timing_preset,
    };
    match plan {
        ConfigPlan::Standard { users, cw_min } => SimulationConfig::standard(*users, *cw_min, settings),
        ConfigPlan::Mixed { lower_users, higher_users, lower_cw_min, higher_cw_min } => SimulationConfig::mixed(
            *lower_users,
            *higher_users,
            *lower_cw_min,
            *higher_cw_min,
            settings,
        ),
    }
}

/// One record per class of `result`.
fn class_records(
    result: &SimulationResult,
    label: &str,
    timing_preset: TimingPreset,
    trial: u32,
    seed: u64,
    total_users: u32,
    cw_min: Option<u32>,
    lower_cw_min: Option<u32>,
    higher_cw_min: Option<u32>,
) -> (batch: Vec<ExperimentRecord>)
    ensures
        batch_matches(batch@, label@, timing_preset, trial, seed, total_users, cw_min, lower_cw_min, higher_cw_min, *result),
{
    let mut batch: Vec<ExperimentRecord> = Vec::new();
    for i in 0..result.per_class.len()
        invariant
            batch@.len() == i,
            forall|j: int|
                0 <= j < i ==> record_matches(
                    #[trigger] batch@[j],
                    label@,
                    timing_preset,
                    trial,
                    seed,
                    total_users,
                    cw_min,
                    lower_cw_min,
                    higher_cw_min,
                    *result,
                    j,
                ),
    {
        let class = &result.per_class[i];
        batch.push(
            ExperimentRecord {
                scenario: label.to_owned(),
                timing_preset,
                trial,
                seed,
                total_users,
                cw_min,
                lower_cw_min,
                higher_cw_min,
                class_name: class.class_name.clone(),
                class_users: class.users,
                successful_packets: class.successful_packets,
                collision_attempts: class.collision_attempts,
                total_delay_slots: class.total_delay_slots,
                total_slots: result.total_slots,
                payload_bits: result.payload_bits,
            },
        );
    }
    batch
}

/// Runs every trial of one plan, trial `t` seeded with `base_seed + t`, and collects the
/// class records, trial by trial.
fn run_trials(
    plan: &ConfigPlan,
    params: &SweepParameters,
    label: &str,
    total_users: u32,
    cw_min: Option<u32>,
    lower_cw_min: Option<u32>,
    higher_cw_min: Option<u32>,
) -> (result: Result<Vec<ExperimentRecord>, SimError>)
    requires
        shape_fits(*params, plan_shape(*plan)),
        !runs_past_seed_limit(*params, plan_shape(*plan)),
    ensures
        family_outcome(
            result,
            label@,
            *params,
            plan_shape(*plan),
            total_users,
            cw_min,
            lower_cw_min,
            higher_cw_min,
        ),
{
    let ghost shape = plan_shape(*plan);
    let mut records: Vec<ExperimentRecord> = Vec::new();
    let ghost mut batches: Seq<Seq<ExperimentRecord>> = Seq::empty();
    for trial in 0..params.trials
        invariant
            shape == plan_shape(*plan),
            shape_fits(*params, shape),
            !runs_past_seed_limit(*params, shape),
            trial > 0 ==> shape_error(*params, shape) is None,
            batches.len() == trial,
            records@ == batches.flatten(),
            forall|t: int|
                0 <= t < trial ==> trial_batch_ok(
                    #[trigger] batches[t],
                    label@,
                    t as u32,
                    (params.base_seed + t) as u64,
                    *params,
                    shape,
                    total_users,
                    cw_min,
                    lower_cw_min,
                    higher_cw_min,
                ),
    {
        proof {
            if trial > 0 {
                assert(!seeds_overflow(*params));
            }
        }
        let seed = params.base_seed + trial as u64;
        let config = plan_config(plan, seed, params);
        proof {
            lemma_config_shape(config, seed, *params, shape);
        }
        let result = match simulate(&config) {
            Ok(result) => result,
            Err(e) => return Err(e),
        };
        let batch = class_records(&result, label, params.timing_preset, trial, seed, total_users, cw_min, lower_cw_min, higher_cw_min);
        let ghost old_batches = batches;
        proof {
            assert(trial_batch_ok(
                batch@,
                label@,
                trial,
                seed,
                *params,
                shape,
                total_users,
                cw_min,
                lower_cw_min,
                higher_cw_min,
            ));
            batches.lemma_flatten_push(batch@);
            batches = batches.push(batch@);
            assert forall|t: int| 0 <= t < trial + 1 implies trial_batch_ok(
                #[trigger] batches[t],
                label@,
                t as u32,
                (params.base_seed + t) as u64,
                *params,
                shape,
                total_users,
                cw_min,
                lower_cw_min,
                higher_cw_min,
            ) by {
                if t < trial {
                    assert(batches[t] == old_batches[t]);
                }
            }
        }
        let mut batch = batch;
        records.append(&mut batch);
    }
    proof {
        assert(trials_ok(records@, label@, *params, shape, total_users, cw_min, lower_cw_min, higher_cw_min));
    }
    Ok(records)
}

/// The error of the first point, in sweep order, whose trials cannot all run.
pub open spec fn first_point_error(values: Seq<u32>, params: SweepParameters, vary_users: bool, fixed: u32) -> Option<
    SimError,
>
    decreases values.len(),
{
    if values.len() == 0 {
        None
    } else if trials_error(params, point_shape(vary_users, fixed, values[0])) is Some {
        trials_error(params, point_shape(vary_users, fixed, values[0]))
    } else {
        first_point_error(values.drop_first(), params, vary_users, fixed)
    }
}

/// `records` are the trial records of every point, point by point.
pub open spec fn sweep_records_ok(
    records: Seq<ExperimentRecord>,
    values: Seq<u32>,
    label: Seq<char>,
    params: SweepParameters,
    vary_users: bool,
    fixed: u32,
) -> bool {
    exists|parts: Seq<Seq<ExperimentRecord>>|
        #![trigger parts.flatten()]
        parts.len() == values.len() && records == parts.flatten() && forall|i: int|
            0 <= i < values.len() ==> trials_ok(
                #[trigger] parts[i],
                label,
                params,
                point_shape(vary_users, fixed, values[i]),
                point_users(vary_users, fixed, values[i]),
                Some(point_cw(vary_users, fixed, values[i])),
                None,
                None,
            )
}

/// The range of a sweep over `min..=max` by `step` expands.
pub open spec fn range_ok(min: u32, max: u32, step: u32) -> bool {
    step > 0 && min <= max && !range_overflows(min, max, step)
}

/// What a single-class sweep over `min..=max` by `step` gives: the range errors first,
/// then the first point whose trials cannot run; else the records of every point, trial
/// and class (none without trials).
pub open spec fn sweep_outcome(
    result: Result<Vec<ExperimentRecord>, SimError>,
    min: u32,
    max: u32,
    step: u32,
    params: SweepParameters,
    vary_users: bool,
    fixed: u32,
    label: Seq<char>,
) -> bool {
    if step == 0 {
        result == Err::<Vec<ExperimentRecord>, SimError>(SimError::ZeroStep)
    } else if min > max {
        result == Err::<Vec<ExperimentRecord>, SimError>(SimError::RangeStartAfterEnd)
    } else if range_overflows(min, max, step) {
        result == Err::<Vec<ExperimentRecord>, SimError>(SimError::RangeOverflow)
    } else {
        let values = sweep_values(min, max, step);
        match first_point_error(values, params, vary_users, fixed) {
            Some(e) => result == Err::<Vec<ExperimentRecord>, SimError>(e),
            None => result matches Ok(records) && sweep_records_ok(
                records@,
                values,
                label,
                params,
                vary_users,
                fixed,
            ),
        }
    }
}

proof fn lemma_standard_shape_users(users: u32, cw_min: u32)
    ensures
        shape_users(standard_shape(users, cw_min)) == users,
{
    let shape = standard_shape(users, cw_min);
    assert(shape.drop_last() =~= Seq::<ClassShape>::empty());
    assert(shape_users(Seq::<ClassShape>::empty()) == 0);
    assert(shape.last() == shape[0]);
}

/// Runs every trial of every point of a single-class sweep.
fn sweep_points(
    min: u32,
    max: u32,
    step: u32,
    params: &SweepParameters,
    vary_users: bool,
    fixed: u32,
    label: &str,
) -> (result: Result<Vec<ExperimentRecord>, SimError>)
    requires
        (if vary_users { max } else { fixed }) * params.total_slots <= u64::MAX,
        range_ok(min, max, step) ==> !runs_past_seed_limit(*params, point_shape(vary_users, fixed, min)),
    ensures
        sweep_outcome(result, min, max, step, *params, vary_users, fixed, label@),
{
    let values = match validate_range_step(min, max, step) {
        Ok(values) => values,
        Err(e) => return Err(e),
    };
    let ghost expected = sweep_values(min, max, step);
    proof {
        assert(values@ =~= expected);
        assert(values@.skip(0) =~= values@);
        assert forall|k: int| 0 <= k < values@.len() implies values@[k] <= max by {
            crate::sim::runner::lemma_steps_within(max - min, step as int, k);
        }
    }
    let mut records: Vec<ExperimentRecord> = Vec::new();
    let ghost mut parts: Seq<Seq<ExperimentRecord>> = Seq::empty();
    for vi in 0..values.len()
        invariant
            (if vary_users { max } else { fixed }) * params.total_slots <= u64::MAX,
            range_ok(min, max, step),
            !runs_past_seed_limit(*params, point_shape(vary_users, fixed, min)),
            values@ == expected,
            expected == sweep_values(min, max, step),
            values@.len() > 0,
            values@[0] == min,
            forall|k: int| 0 <= k < values@.len() ==> values@[k] <= max,
            vi > 0 ==> trials_error(*params, point_shape(vary_users, fixed, min)) is None,
            first_point_error(values@, *params, vary_users, fixed) == first_point_error(
                values@.skip(vi as int),
                *params,
                vary_users,
                fixed,
            ),
            parts.len() == vi,
            records@ == parts.flatten(),
            forall|i: int|
                0 <= i < vi ==> trials_ok(
                    #[trigger] parts[i],
                    label@,
                    *params,
                    point_shape(vary_users, fixed, values@[i]),
                    point_users(vary_users, fixed, values@[i]),
                    Some(point_cw(vary_users, fixed, values@[i])),
                    None,
                    None,
                ),
    {
        let value = values[vi];
        let users = if vary_users { value } else { fixed };
        let cw_min = if vary_users { fixed } else { value };
        let plan = ConfigPlan::Standard { users, cw_min };
        proof {
            assert(values@.skip(vi as int)[0] == value);
            assert(values@.skip(vi as int).drop_first() =~= values@.skip(vi + 1));
            lemma_standard_shape_users(users, cw_min);
            let bound: int = if vary_users { max as int } else { fixed as int };
            assert(users <= bound);
            assert(users * params.total_slots <= bound * params.total_slots) by (nonlinear_arith)
                requires
                    users <= bound,
                    params.total_slots >= 0,
            ;
            assert(plan_shape(plan) == point_shape(vary_users, fixed, value));
        }
        let batch = match run_trials(&plan, params, label, users, Some(cw_min), None, None) {
            Ok(batch) => batch,
            Err(e) => {
                proof {
                    assert(first_point_error(values@.skip(vi as int), *params, vary_users, fixed) == Some(
                        e,
                    ));
                }
                return Err(e);
            },
        };
        let ghost old_parts = parts;
        proof {
            parts.lemma_flatten_push(batch@);
            parts = parts.push(batch@);
            assert forall|i: int| 0 <= i < vi + 1 implies trials_ok(
                #[trigger] parts[i],
                label@,
                *params,
                point_shape(vary_users, fixed, values@[i]),
                point_users(vary_users, fixed, values@[i]),
                Some(point_cw(vary_users, fixed, values@[i])),
                None,
                None,
            ) by {
                if i < vi {
                    assert(parts[i] == old_parts[i]);
                }
            }
        }
        let mut batch = batch;
        records.append(&mut batch);
    }
    proof {
        assert(values@.skip(values@.len() as int) =~= Seq::<u32>::empty());
        assert(sweep_records_ok(records@, values@, label@, *params, vary_users, fixed));
    }
    Ok(records)
}

/// Sweeps the number of users of one "standard" class over `min_users..=max_users` by
/// `step`, with `params.trials` trials per point, trial `t` seeded with `base_seed + t`.
pub fn sweep_users(min_users: u32, max_users: u32, step: u32, cw_min: u32, params: &SweepParameters) -> (
    result: Result<Vec<ExperimentRecord>, SimError>)
    requires
        max_users * params.total_slots <= u64::MAX,
        range_ok(min_users, max_users, step) ==> !runs_past_seed_limit(
            *params,
            standard_shape(min_users, cw_min),
        ),
    ensures
        sweep_outcome(result, min_users, max_users, step, *params, true, cw_min, "sweep-users"@),
{
    sweep_points(min_users, max_users, step, params, true, cw_min, "sweep-users")
}

/// Sweeps the minimum window of one "standard" class of `users` users over
/// `min_cw..=max_cw` by `step`, with `params.trials` trials per point, trial `t` seeded
/// with `base_seed + t`.
pub fn sweep_cwmins(users: u32, min_cw: u32, max_cw: u32, step: u32, params: &SweepParameters) -> (
    result: Result<Vec<ExperimentRecord>, SimError>)
    requires
        users * params.total_slots <= u64::MAX,
        range_ok(min_cw, max_cw, step) ==> !runs_past_seed_limit(*params, standard_shape(users, min_cw)),
    ensures
        sweep_outcome(result, min_cw, max_cw, step, *params, false, users, "sweep-cw"@),
{
    sweep_points(min_cw, max_cw, step, params, false, users, "sweep-cw")
}

/// Runs `params.trials` trials of the two-class configuration "lower-cw" / "higher-cw",
/// trial `t` seeded with `base_seed + t`.
pub fn mixed_classes(
    lower_users: u32,
    higher_users: u32,
    lower_cw_min: u32,
    higher_cw_min: u32,
    params: &SweepParameters,
) -> (result: Result<Vec<ExperimentRecord>, SimError>)
    requires
        lower_users + higher_users <= u32::MAX,
        (lower_users + higher_users) * params.total_slots <= u64::MAX,
        !runs_past_seed_limit(*params, mixed_shape(lower_users, higher_users, lower_cw_min, higher_cw_min)),
    ensures
        family_outcome(
            result,
            "mixed-classes"@,
            *params,
            mixed_shape(lower_users, higher_users, lower_cw_min, higher_cw_min),
            (lower_users + higher_users) as u32,
            None,
            Some(lower_cw_min),
            Some(higher_cw_min),
        ),
{
    let plan = ConfigPlan::Mixed { lower_users, higher_users, lower_cw_min, higher_cw_min };
    proof {
        let shape = mixed_shape(lower_users, higher_users, lower_cw_min, higher_cw_min);
        assert(shape.drop_last().drop_last() =~= Seq::<ClassShape>::empty());
        assert(shape_users(Seq::<ClassShape>::empty()) == 0);
        assert(shape.drop_last().last() == shape[0]);
        assert(shape.last() == shape[1]);
        assert(shape_users(shape.drop_last()) == lower_users);
        assert(shape_users(shape) == lower_users + higher_users);
    }
    let total_users = lower_users + higher_users;
    run_trials(&plan, params, "mixed-classes", total_users, None, Some(lower_cw_min), Some(higher_cw_min))
}

} // verus!
