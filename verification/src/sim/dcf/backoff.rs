use vstd::prelude::*;

verus! {

/// A backoff counter, with the value it held when the medium last turned busy.
#[derive(Debug, Clone, Copy, PartialEq, Eq, Structural)]
pub struct BackoffState {
    pub counter: u32,
    pub frozen_counter: Option<u32>,
}

impl BackoffState {
    pub open spec fn decrement_spec(self) -> Self {
        if self.counter > 0 {
            BackoffState { counter: (self.counter - 1) as u32, ..self }
        } else {
            self
        }
    }

    pub open spec fn freeze_spec(self) -> Self {
        BackoffState { frozen_counter: Some(self.counter), ..self }
    }

    pub open spec fn resume_spec(self) -> Self {
        match self.frozen_counter {
            Some(counter) => BackoffState { counter, frozen_counter: None },
            None => self,
        }
    }

    pub open spec fn replace_spec(self, counter: u32) -> Self {
        BackoffState { counter, frozen_counter: None }
    }

    pub fn new(counter: u32) -> (state: Self)
        ensures
            state == (BackoffState { counter, frozen_counter: None }),
    {
        Self { counter, frozen_counter: None }
    }

    pub fn decrement(&mut self)
        ensures
            *final(self) == old(self).decrement_spec(),
    {
        if self.counter > 0 {
            self.counter -= 1;
        }
    }

    pub fn freeze(&mut self)
        ensures
            *final(self) == old(self).freeze_spec(),
    {
        self.frozen_counter = Some(self.counter);
    }

    pub fn resume(&mut self)
        ensures
            *final(self) == old(self).resume_spec(),
    {
        if let Some(counter) = self.frozen_counter {
            self.counter = counter;
            self.frozen_counter = None;
        }
    }

    pub fn replace(&mut self, counter: u32)
        ensures
            *final(self) == old(self).replace_spec(counter),
    {
        self.counter = counter;
        self.frozen_counter = None;
    }
}

/// Freezing a counter and resuming it gives back the counter it held at the freeze,
/// whatever countdown happened in between, and leaves nothing frozen.
pub proof fn lemma_freeze_resume_restores(state: BackoffState, decrements: nat)
    ensures
        decrement_times(state.freeze_spec(), decrements).resume_spec()
            == (BackoffState { counter: state.counter, frozen_counter: None }),
{
    lemma_decrement_keeps_frozen(state.freeze_spec(), decrements);
}

/// `n` successive decrements.
pub open spec fn decrement_times(state: BackoffState, n: nat) -> BackoffState
    decreases n,
{
    if n == 0 {
        state
    } else {
        decrement_times(state, (n - 1) as nat).decrement_spec()
    }
}

/// A decrement never raises the counter and never touches the frozen value.
pub proof fn lemma_decrement_keeps_frozen(state: BackoffState, n: nat)
    ensures
        decrement_times(state, n).frozen_counter == state.frozen_counter,
        decrement_times(state, n).counter <= state.counter,
    decreases n,
{
    if n > 0 {
        lemma_decrement_keeps_frozen(state, (n - 1) as nat);
    }
}

} // verus!
