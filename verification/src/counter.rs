//! A counter that its single owner increments.
use vstd::prelude::*;

verus! {

/// A counter of calls. It is a plain value: whoever owns it decides how
/// increments are serialised.
#[derive(Clone, Copy, Debug)]
pub struct Counter {
    value: i32,
}

impl Counter {
    /// The number of increments so far.
    pub closed spec fn count(&self) -> int {
        self.value as int
    }

    /// A counter at zero.
    pub fn new() -> (c: Counter)
        ensures
            c.count() == 0,
    {
        Counter { value: 0 }
    }

    /// A counter that stands at `value`.
    pub fn with_count(value: i32) -> (c: Counter)
        ensures
            c.count() == value,
    {
        Counter { value }
    }

    /// The current value.
    pub fn get(&self) -> (v: i32)
        ensures
            v == self.count(),
    {
        self.value
    }

    /// Is there room for one more increment?
    pub fn can_increment(&self) -> (room: bool)
        ensures
            room == (self.count() < i32::MAX),
    {
        self.value < i32::MAX
    }

    /// Adds one.
    pub fn increment_counter(&mut self)
        requires
            old(self).count() < i32::MAX,
        ensures
            final(self).count() == old(self).count() + 1,
    {
        self.value = self.value + 1;
    }
}

} // verus!
