use vstd::prelude::*;

verus! {

/// A value together with the time at which it was observed. Channels keep
/// two of them, one for the running maximum and one for the running minimum.
///
/// A point whose `time` is zero counts as never set.
#[derive(Clone, Copy, Debug, PartialEq, Eq, Structural, Hash)]
pub struct Point {
    pub time: u64,
    pub value: u64,
}

impl Point {
    /// The point that has never been set.
    pub open spec fn unset() -> Point {
        Point { time: 0, value: 0 }
    }

    /// Whether an observation has been stored.
    pub open spec fn is_set(self) -> bool {
        self.time > 0
    }

    /// The maximum tracker after it has seen `value` at `time`: an unset
    /// tracker takes any observation, a set one only a strictly larger value.
    pub open spec fn raised(self, value: u64, time: u64) -> Point {
        if self.is_set() && value <= self.value {
            self
        } else {
            Point { time, value }
        }
    }

    /// The minimum tracker after it has seen `value` at `time`: an unset
    /// tracker takes any observation, a set one only a strictly smaller value.
    pub open spec fn lowered(self, value: u64, time: u64) -> Point {
        if self.is_set() && value >= self.value {
            self
        } else {
            Point { time, value }
        }
    }

    pub fn new(value: u64, time: u64) -> (p: Point)
        ensures
            p == (Point { time, value }),
    {
        Point { time, value }
    }

    pub fn time(&self) -> (t: u64)
        ensures
            t == self.time,
    {
        self.time
    }

    pub fn value(&self) -> (v: u64)
        ensures
            v == self.value,
    {
        self.value
    }

    /// Overwrites the point.
    pub fn set(&mut self, value: u64, time: u64)
        ensures
            *final(self) == (Point { time, value }),
    {
        self.time = time;
        self.value = value;
    }

    /// Offers an observation to a maximum tracker.
    pub fn raise(&mut self, value: u64, time: u64)
        ensures
            *final(self) == old(self).raised(value, time),
    {
        if self.time > 0 {
            if value > self.value {
                self.set(value, time);
            }
        } else {
            self.set(value, time);
        }
    }

    /// Offers an observation to a minimum tracker.
    pub fn lower(&mut self, value: u64, time: u64)
        ensures
            *final(self) == old(self).lowered(value, time),
    {
        if self.time > 0 {
            if value < self.value {
                self.set(value, time);
            }
        } else {
            self.set(value, time);
        }
    }
}

} // verus!
