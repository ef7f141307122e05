//! The size below which walkers no longer report files.

use vstd::prelude::*;

verus! {

/// The pruning floor of one scan. It starts at the configured minimum size
/// and is only ever raised.
#[derive(Clone, Copy, Debug)]
pub struct SharedThreshold {
    value: u64,
}

impl View for SharedThreshold {
    type V = nat;

    closed spec fn view(&self) -> nat {
        self.value as nat
    }
}

impl SharedThreshold {
    /// A floor that stands at `min_size`.
    pub fn new(min_size: u64) -> (floor: SharedThreshold)
        ensures
            floor@ == min_size,
    {
        SharedThreshold { value: min_size }
    }

    /// The floor as it stands.
    pub fn get(&self) -> (value: u64)
        ensures
            value == self@,
    {
        self.value
    }

    /// Raises the floor to `to`. A value below the floor changes nothing, so
    /// the floor never falls.
    pub fn raise(&mut self, to: u64)
        ensures
            final(self)@ == if to >= old(self)@ { to as nat } else { old(self)@ },
            final(self)@ >= old(self)@,
    {
        if to > self.value {
            self.value = to;
        }
    }

    /// Whether a walker that reads this floor forwards a file of `size`
    /// bytes: files of at least the floor are forwarded.
    pub fn admits(&self, size: u64) -> (forward: bool)
        ensures
            forward == (size >= self@),
    {
        size >= self.value
    }
}

} // verus!
