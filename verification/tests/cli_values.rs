use csma_ca_simulation::cli::{build_sweep_parameters, resolve_cw_sweep_values};
use csma_ca_simulation::{validate_range_step, SimError, SweepParameters, TimingPreset};

#[test]
fn cw_sweep_defaults_to_seeded_values_range() {
    let values = resolve_cw_sweep_values(None, None, 8, None)
        .expect("default cw sweep values should expand");

    assert_eq!(values, vec![0, 2, 4, 8, 16, 32, 64]);
}

#[test]
fn cw_sweep_accepts_explicit_seeded_values() {
    let values = resolve_cw_sweep_values(None, None, 8, Some(vec![0, 2, 4, 8, 16, 32, 64]))
        .expect("explicit cw values should be accepted");

    assert_eq!(values, vec![0, 2, 4, 8, 16, 32, 64]);
}

#[test]
fn cw_sweep_expands_partial_bounds() {
    assert_eq!(resolve_cw_sweep_values(Some(8), None, 16, None), Ok(vec![8, 24, 40, 56]));
    assert_eq!(resolve_cw_sweep_values(None, Some(10), 4, None), Ok(vec![0, 4, 8]));
    assert_eq!(
        resolve_cw_sweep_values(Some(u32::MAX - 3), Some(u32::MAX), 2, None),
        Ok(vec![u32::MAX - 3, u32::MAX - 1])
    );
}

#[test]
fn cw_sweep_rejects_bad_requests() {
    assert_eq!(resolve_cw_sweep_values(None, None, 8, Some(vec![])), Err(SimError::EmptyCwValues));
    assert_eq!(resolve_cw_sweep_values(Some(1), Some(9), 0, None), Err(SimError::ZeroStep));
    assert_eq!(resolve_cw_sweep_values(Some(9), Some(1), 2, None), Err(SimError::MinCwAboveMaxCw));
}

#[test]
fn sweep_parameters_need_trials() {
    assert_eq!(build_sweep_parameters(64, 100, 8, 0, 1, TimingPreset::Baseline), Err(SimError::ZeroTrials));
    assert_eq!(
        build_sweep_parameters(64, 100, 8, 3, 1, TimingPreset::ShortDefer),
        Ok(SweepParameters {
            total_slots: 100,
            payload_bits: 8,
            cw_max: 64,
            trials: 3,
            base_seed: 1,
            timing_preset: TimingPreset::ShortDefer,
        })
    );
}

#[test]
fn range_expands_by_step() {
    assert_eq!(validate_range_step(10, 50, 10), Ok(vec![10, 20, 30, 40, 50]));
    assert_eq!(validate_range_step(4, 4, 9), Ok(vec![4]));
    assert_eq!(validate_range_step(1, 8, 3), Ok(vec![1, 4, 7]));
}

#[test]
fn range_rejects_bad_requests() {
    assert_eq!(validate_range_step(1, 5, 0), Err(SimError::ZeroStep));
    assert_eq!(validate_range_step(6, 5, 1), Err(SimError::RangeStartAfterEnd));
    assert_eq!(validate_range_step(u32::MAX - 1, u32::MAX, 1), Err(SimError::RangeOverflow));
    assert_eq!(validate_range_step(0, 10, u32::MAX), Ok(vec![0]));
}
