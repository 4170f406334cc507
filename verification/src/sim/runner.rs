use vstd::prelude::*;

use crate::domain::config::{config_users_sum, preset_timing, SimulationConfig};
use crate::domain::report::SimulationReport;
use crate::domain::scenario::{users_sum, Scenario, StationClass};
use crate::error::SimError;

use super::dcf::engine::{run_outcome, scenario_fits, trace_outcome, SimulationTrace};
use super::dcf::engine;

verus! {

/// Runs a scenario; see the engine for what the report holds.
pub fn run(scenario: &Scenario) -> (result: Result<SimulationReport, SimError>)
    requires
        scenario_fits(*scenario),
    ensures
        run_outcome(result, *scenario),
{
    engine::run(scenario)
}

/// Runs a scenario and records one frame per slot, each frame one step of the same
/// complete run of the model whose report the trace carries.
pub fn trace(scenario: &Scenario) -> (result: Result<SimulationTrace, SimError>)
    requires
        scenario_fits(*scenario),
    ensures
        trace_outcome(result, *scenario),
{
    engine::trace(scenario)
}

/// `scenario` is the one `config.to_scenario()` builds.
pub open spec fn scenario_of_config(config: SimulationConfig, scenario: Scenario) -> bool {
    &&& scenario.seed == config.seed
    &&& scenario.timing == preset_timing(config.timing_preset, config.total_slots, config.payload_bits)
    &&& scenario.window.cw_max == config.cw_max
    &&& scenario.classes@.len() == config.classes@.len()
    &&& forall|i: int|
        0 <= i < config.classes@.len() ==> {
            &&& (#[trigger] scenario.classes@[i]).name@ == config.classes@[i].name@
            &&& scenario.classes@[i].users == config.classes@[i].users
            &&& scenario.classes@[i].cw_min == config.classes@[i].cw_min
        }
}

proof fn lemma_users_sum_matches(config: SimulationConfig, scenario: Scenario, n: int)
    requires
        scenario_of_config(config, scenario),
        0 <= n <= config.classes@.len(),
    ensures
        users_sum(scenario.classes@.take(n)) == config_users_sum(config.classes@.take(n)),
    decreases n,
{
    if n > 0 {
        lemma_users_sum_matches(config, scenario, n - 1);
        assert(scenario.classes@.take(n).drop_last() =~= scenario.classes@.take(n - 1));
        assert(config.classes@.take(n).drop_last() =~= config.classes@.take(n - 1));
    }
}

/// Runs the scenario a configuration describes (the timing of its preset).
pub fn simulate(config: &SimulationConfig) -> (result: Result<SimulationReport, SimError>)
    requires
        config.users_spec() <= u32::MAX,
        config.users_spec() * config.total_slots <= u64::MAX,
    ensures
        exists|scenario: Scenario|
            scenario_of_config(*config, scenario) && #[trigger] run_outcome(result, scenario),
{
    let scenario = config.to_scenario();
    proof {
        lemma_users_sum_matches(*config, scenario, config.classes@.len() as int);
        assert(scenario.classes@.take(scenario.classes@.len() as int) =~= scenario.classes@);
        assert(config.classes@.take(config.classes@.len() as int) =~= config.classes@);
    }
    let result = run(&scenario);
    proof {
        assert(scenario_of_config(*config, scenario));
    }
    result
}

/// `values` are `start, start + step, ...` up to `end`: every value of that form that
/// does not exceed `end`, in increasing order.
pub open spec fn stepped_values(values: Seq<u32>, start: u32, end: u32, step: u32) -> bool {
    &&& values.len() == (end - start) / (step as int) + 1
    &&& forall|k: int| 0 <= k < values.len() ==> values[k] == start + k * step
}

/// The value after the last one no longer fits in a `u32`.
pub open spec fn range_overflows(start: u32, end: u32, step: u32) -> bool {
    start + ((end - start) / (step as int)) * step + step > u32::MAX
}

/// What expanding `start..=end` by `step` gives: an error for a zero step, for a start
/// after the end, or when the value after the last one overflows; else the stepped values.
pub open spec fn range_outcome(result: Result<Vec<u32>, SimError>, start: u32, end: u32, step: u32) -> bool {
    if step == 0 {
        result == Err::<Vec<u32>, SimError>(SimError::ZeroStep)
    } else if start > end {
        result == Err::<Vec<u32>, SimError>(SimError::RangeStartAfterEnd)
    } else if range_overflows(start, end, step) {
        result == Err::<Vec<u32>, SimError>(SimError::RangeOverflow)
    } else {
        result matches Ok(values) && stepped_values(values@, start, end, step)
    }
}

/// `k * step <= d` exactly when `k <= d / step`.
pub proof fn lemma_steps_within(d: int, step: int, k: int)
    requires
        d >= 0,
        step > 0,
        k >= 0,
    ensures
        (k * step <= d) <==> (k <= d / step),
{
    vstd::arithmetic::div_mod::lemma_fundamental_div_mod(d, step);
    vstd::arithmetic::div_mod::lemma_mod_bound(d, step);
    let q = d / step;
    let r = d % step;
    assert((k * step <= d) <==> (k <= q)) by (nonlinear_arith)
        requires
            d == step * q + r,
            0 <= r < step,
            k >= 0,
            step > 0,
    ;
}

/// Expands `start..=end` by `step`.
pub fn validate_range_step(start: u32, end: u32, step: u32) -> (result: Result<Vec<u32>, SimError>)
    ensures
        range_outcome(result, start, end, step),
{
    if step == 0 {
        return Err(SimError::ZeroStep);
    }
    if start > end {
        return Err(SimError::RangeStartAfterEnd);
    }
    let ghost m = (end - start) / (step as int);
    let mut values: Vec<u32> = Vec::new();
    let mut current = start;
    proof {
        lemma_steps_within(end - start, step as int, 0);
    }
    while current <= end
        invariant
            step > 0,
            start <= end,
            m == (end - start) / (step as int),
            current == start + values@.len() * step,
            values@.len() <= m + 1,
            (values@.len() <= m) <==> (current <= end),
            m >= 0,
            forall|k: int| 0 <= k < values@.len() ==> values@[k] == start + k * step,
        decreases m + 1 - values@.len(),
    {
        let ghost k = values@.len() as int;
        values.push(current);
        proof {
            lemma_steps_within(end - start, step as int, k + 1);
            lemma_steps_within(end - start, step as int, k);
            assert((k + 1) * step == k * step + step) by (nonlinear_arith);
        }
        match current.checked_add(step) {
            Some(next) => {
                if next > current {
                    current = next;
                } else {
                    return Err(SimError::RangeOverflow);
                }
            },
            None => {
                return Err(SimError::RangeOverflow);
            },
        }
    }
    proof {
        assert((m + 1) * step == m * step + step) by (nonlinear_arith);
    }
    Ok(values)
}

} // verus!
