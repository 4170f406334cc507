use vstd::prelude::*;

verus! {

/// A station's contention window: the class minimum, the current width and the shared cap.
#[derive(Debug, Clone, Copy, PartialEq, Eq, Structural)]
pub struct ContentionWindow {
    pub cw_min: u32,
    pub current: u32,
    pub cw_max: u32,
}

/// `2 * current + 1`, saturating at `u32::MAX`, then capped at `cw_max`.
pub open spec fn grown_width(current: u32, cw_max: u32) -> u32 {
    let doubled_plus_one: int = if 2 * current + 1 > u32::MAX { u32::MAX as int } else { 2 * current + 1 };
    if doubled_plus_one < cw_max { doubled_plus_one as u32 } else { cw_max }
}

impl ContentionWindow {
    /// The window after a reset: back to the class minimum.
    pub open spec fn reset_spec(self) -> Self {
        ContentionWindow { current: self.cw_min, ..self }
    }

    /// The window after a collision: binary exponential growth, capped.
    pub open spec fn grown_spec(self) -> Self {
        ContentionWindow { current: grown_width(self.current, self.cw_max), ..self }
    }

    /// Bounds every window of a valid configuration keeps.
    pub open spec fn within_bounds(self) -> bool {
        self.cw_min <= self.current <= self.cw_max
    }

    pub fn new(cw_min: u32, cw_max: u32) -> (window: Self)
        ensures
            window == (ContentionWindow { cw_min, current: cw_min, cw_max }),
    {
        Self { cw_min, current: cw_min, cw_max }
    }

    pub fn reset(&mut self)
        ensures
            *final(self) == old(self).reset_spec(),
    {
        self.current = self.cw_min;
    }

    pub fn increase_binary_exponential(&mut self)
        ensures
            *final(self) == old(self).grown_spec(),
    {
        let doubled_plus_one: u32 = if self.current > (u32::MAX - 1) / 2 {
            u32::MAX
        } else {
            2 * self.current + 1
        };
        self.current = if doubled_plus_one < self.cw_max {
            doubled_plus_one
        } else {
            self.cw_max
        };
    }
}

/// A window within its bounds stays within them after a reset and after growth.
pub proof fn lemma_window_stays_bounded(window: ContentionWindow)
    requires
        window.within_bounds(),
    ensures
        window.reset_spec().within_bounds(),
        window.grown_spec().within_bounds(),
        window.current <= window.grown_spec().current,
{
}

/// `n` collisions in a row.
pub open spec fn grown_times(window: ContentionWindow, n: nat) -> ContentionWindow
    decreases n,
{
    if n == 0 {
        window
    } else {
        grown_times(window, (n - 1) as nat).grown_spec()
    }
}

/// Growth never touches the minimum or the cap, so however many collisions a fresh window
/// went through, a reset brings it back to the fresh window.
pub proof fn lemma_reset_after_growth(cw_min: u32, cw_max: u32, n: nat)
    ensures
        grown_times(ContentionWindow { cw_min, current: cw_min, cw_max }, n).reset_spec()
            == (ContentionWindow { cw_min, current: cw_min, cw_max }),
    decreases n,
{
    if n > 0 {
        lemma_reset_after_growth(cw_min, cw_max, (n - 1) as nat);
    }
}

/// Binary exponential growth: the window becomes `2 * current + 1` when that fits under the
/// cap, and the cap otherwise; it never exceeds the cap, never shrinks below its old width
/// within the cap, and keeps its minimum and cap.
pub proof fn lemma_growth_rule(w: ContentionWindow)
    ensures
        w.grown_spec().cw_min == w.cw_min,
        w.grown_spec().cw_max == w.cw_max,
        w.grown_spec().current <= w.cw_max,
        2 * w.current + 1 <= w.cw_max ==> w.grown_spec().current == 2 * w.current + 1,
        2 * w.current + 1 > w.cw_max ==> w.grown_spec().current == w.cw_max,
        w.reset_spec().current == w.cw_min,
        w.reset_spec().cw_min == w.cw_min && w.reset_spec().cw_max == w.cw_max,
{
}

} // verus!
