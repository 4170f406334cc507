use vstd::prelude::*;

use crate::domain::config::{SweepParameters, TimingPreset};
use crate::error::SimError;
use crate::sim::runner::stepped_values;

verus! {

/// The window values a sweep uses when none are given.
pub open spec fn default_cw_values() -> Seq<u32> {
    seq![0u32, 2, 4, 8, 16, 32, 64]
}

/// What `resolve_cw_sweep_values` gives: explicit values as they are (an empty list is an
/// error); with no bounds, the default list; else `min_cw` (default 0) to `max_cw`
/// (default 64) by `step`, an error for a zero step or a minimum above the maximum.
pub open spec fn cw_values_outcome(
    result: Result<Vec<u32>, SimError>,
    min_cw: Option<u32>,
    max_cw: Option<u32>,
    step: u32,
    cw_values: Option<Vec<u32>>,
) -> bool {
    match cw_values {
        Some(values) => if values@.len() == 0 {
            result == Err::<Vec<u32>, SimError>(SimError::EmptyCwValues)
        } else {
            result matches Ok(r) && r@ == values@
        },
        None => if min_cw is None && max_cw is None {
            result matches Ok(r) && r@ == default_cw_values()
        } else {
            let low: u32 = match min_cw {
                Some(v) => v,
                None => 0,
            };
            let high: u32 = match max_cw {
                Some(v) => v,
                None => 64,
            };
            if step == 0 {
                result == Err::<Vec<u32>, SimError>(SimError::ZeroStep)
            } else if low > high {
                result == Err::<Vec<u32>, SimError>(SimError::MinCwAboveMaxCw)
            } else {
                result matches Ok(r) && stepped_values(r@, low, high, step)
            }
        },
    }
}

/// The window values of a window sweep.
pub fn resolve_cw_sweep_values(
    min_cw: Option<u32>,
    max_cw: Option<u32>,
    step: u32,
    cw_values: Option<Vec<u32>>,
) -> (result: Result<Vec<u32>, SimError>)
    ensures
        cw_values_outcome(result, min_cw, max_cw, step, cw_values),
{
    if let Some(cw_values) = cw_values {
        if cw_values.len() == 0 {
            return Err(SimError::EmptyCwValues);
        }
        return Ok(cw_values);
    }
    if min_cw.is_none() && max_cw.is_none() {
        let values = vec![0, 2, 4, 8, 16, 32, 64];
        proof {
            assert(values@ =~= default_cw_values());
        }
        return Ok(values);
    }
    let min_cw = match min_cw {
        Some(v) => v,
        None => 0,
    };
    let max_cw = match max_cw {
        Some(v) => v,
        None => 64,
    };
    if step == 0 {
        return Err(SimError::ZeroStep);
    }
    if min_cw > max_cw {
        return Err(SimError::MinCwAboveMaxCw);
    }
    let ghost m = (max_cw - min_cw) / (step as int);
    let mut values: Vec<u32> = Vec::new();
    let mut current = min_cw;
    proof {
        crate::sim::runner::lemma_steps_within(max_cw - min_cw, step as int, 0);
    }
    while current <= max_cw
        invariant_except_break
            current == min_cw + values@.len() * step,
            (values@.len() <= m) <==> (current <= max_cw),
        invariant
            step > 0,
            min_cw <= max_cw,
            m == (max_cw - min_cw) / (step as int),
            m >= 0,
            values@.len() <= m + 1,
            forall|k: int| 0 <= k < values@.len() ==> values@[k] == min_cw + k * step,
        ensures
            values@.len() == m + 1,
        decreases m + 1 - values@.len(),
    {
        let ghost k = values@.len() as int;
        values.push(current);
        proof {
            crate::sim::runner::lemma_steps_within(max_cw - min_cw, step as int, k + 1);
            crate::sim::runner::lemma_steps_within(max_cw - min_cw, step as int, k);
            assert((k + 1) * step == k * step + step) by (nonlinear_arith);
        }
        match current.checked_add(step) {
            Some(next) => {
                if next > current {
                    current = next;
                } else {
                    break;
                }
            },
            None => {
                break;
            },
        }
    }
    Ok(values)
}

/// The parameters of a sweep; it needs at least one trial.
pub fn build_sweep_parameters(
    cw_max: u32,
    total_slots: u64,
    payload_bits: u64,
    trials: u32,
    base_seed: u64,
    timing_preset: TimingPreset,
) -> (result: Result<SweepParameters, SimError>)
    ensures
        trials == 0 ==> result == Err::<SweepParameters, SimError>(SimError::ZeroTrials),
        trials > 0 ==> result == Ok::<SweepParameters, SimError>(
            SweepParameters { total_slots, payload_bits, cw_max, trials, base_seed, timing_preset },
        ),
{
    if trials == 0 {
        return Err(SimError::ZeroTrials);
    }
    Ok(SweepParameters { total_slots, payload_bits, cw_max, trials, base_seed, timing_preset })
}

} // verus!
