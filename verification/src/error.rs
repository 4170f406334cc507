use vstd::prelude::*;

verus! {

/// Why the library refused a request.
#[derive(Debug, Clone, Copy, PartialEq, Eq, Structural)]
pub enum SimError {
    /// `total_slots` is zero.
    ZeroTotalSlots,
    /// `payload_bits` is zero.
    ZeroPayloadBits,
    /// The contention-window cap is zero.
    ZeroCwMax,
    /// `tx_duration_slots` is zero.
    ZeroTxDuration,
    /// The scenario has no station class.
    NoClasses,
    /// A station class has no user.
    EmptyClass,
    /// A class minimum window exceeds the cap.
    CwMinAboveCwMax,
    /// A class minimum window is zero where the slotted model needs a positive one.
    ZeroCwMin,
    /// A contention window to draw from is zero wide.
    ZeroContentionWindow,
    /// A range step is zero.
    ZeroStep,
    /// A range starts after its end.
    RangeStartAfterEnd,
    /// Expanding a range overflowed `u32`.
    RangeOverflow,
    /// A sweep asks for zero trials.
    ZeroTrials,
    /// A trial index is not below the trial count.
    TrialOutOfRange,
    /// A trial seed overflowed `u64`.
    SeedOverflow,
    /// An explicit list of window values is empty.
    EmptyCwValues,
    /// The lowest window of a sweep exceeds its highest.
    MinCwAboveMaxCw,
}

} // verus!
