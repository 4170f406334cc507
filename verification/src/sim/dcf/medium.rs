use vstd::prelude::*;

verus! {

/// The shared medium: how many slots it stays busy, and how many idle slots it has seen in a row.
#[derive(Debug, Clone, Copy, PartialEq, Eq, Structural)]
pub struct MediumState {
    pub busy_slots_remaining: u32,
    pub idle_slots: u32,
}

impl MediumState {
    pub open spec fn is_busy_spec(self) -> bool {
        self.busy_slots_remaining > 0
    }

    pub open spec fn start_busy_spec(self, busy_slots_remaining: u32) -> Self {
        MediumState { busy_slots_remaining, idle_slots: 0 }
    }

    pub open spec fn consume_busy_slot_spec(self) -> Self {
        MediumState {
            busy_slots_remaining: if self.busy_slots_remaining > 0 {
                (self.busy_slots_remaining - 1) as u32
            } else {
                0
            },
            idle_slots: 0,
        }
    }

    pub open spec fn observe_idle_slot_spec(self) -> Self {
        MediumState {
            idle_slots: if self.idle_slots < u32::MAX { (self.idle_slots + 1) as u32 } else { u32::MAX },
            ..self
        }
    }

    pub fn idle() -> (medium: Self)
        ensures
            medium == (MediumState { busy_slots_remaining: 0, idle_slots: 0 }),
    {
        Self { busy_slots_remaining: 0, idle_slots: 0 }
    }

    pub fn is_busy(&self) -> (busy: bool)
        ensures
            busy == self.is_busy_spec(),
    {
        self.busy_slots_remaining > 0
    }

    pub fn start_busy(&mut self, busy_slots_remaining: u32)
        ensures
            *final(self) == old(self).start_busy_spec(busy_slots_remaining),
    {
        self.busy_slots_remaining = busy_slots_remaining;
        self.idle_slots = 0;
    }

    pub fn consume_busy_slot(&mut self)
        ensures
            *final(self) == old(self).consume_busy_slot_spec(),
    {
        if self.busy_slots_remaining > 0 {
            self.busy_slots_remaining -= 1;
        }
        self.idle_slots = 0;
    }

    pub fn observe_idle_slot(&mut self)
        ensures
            *final(self) == old(self).observe_idle_slot_spec(),
    {
        if self.idle_slots < u32::MAX {
            self.idle_slots = self.idle_slots + 1;
        }
    }
}

/// `n` busy slots consumed in a row.
pub open spec fn consume_times(medium: MediumState, n: nat) -> MediumState
    decreases n,
{
    if n == 0 {
        medium
    } else {
        consume_times(medium, (n - 1) as nat).consume_busy_slot_spec()
    }
}

/// A medium made busy for `k` slots is busy for the first `k - 1` consumed slots and idle
/// after the `k`-th.
pub proof fn lemma_busy_period_length(medium: MediumState, k: u32, n: nat)
    ensures
        consume_times(medium.start_busy_spec(k), n).busy_slots_remaining == if n < k {
            k - n
        } else {
            0
        },
        n >= k ==> !consume_times(medium.start_busy_spec(k), n).is_busy_spec(),
    decreases n,
{
    if n > 0 {
        lemma_busy_period_length(medium, k, (n - 1) as nat);
    }
}

/// Observing an idle slot counts it: the run of idle slots grows by exactly one (until
/// the count saturates) and the medium stays idle; starting a busy period, or consuming
/// one of its slots, ends the run of idle slots.
pub proof fn lemma_idle_slots_count_up(m: MediumState, busy: u32)
    ensures
        m.idle_slots < u32::MAX ==> m.observe_idle_slot_spec().idle_slots == m.idle_slots + 1,
        m.idle_slots == u32::MAX ==> m.observe_idle_slot_spec().idle_slots == u32::MAX,
        m.observe_idle_slot_spec().busy_slots_remaining == m.busy_slots_remaining,
        m.start_busy_spec(busy).idle_slots == 0,
        m.consume_busy_slot_spec().idle_slots == 0,
{
}

} // verus!
