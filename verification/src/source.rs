use vstd::prelude::*;

verus! {

/// The kind of measurement a channel accepts. It is fixed when the channel is
/// created and decides which recording rule is active.
#[derive(Clone, Copy, Debug, PartialEq, Eq, Structural, Hash)]
pub enum Source {
    /// A cumulative count that only grows (and may wrap at its width).
    Counter,
    /// An instantaneous value that replaces the previous one.
    Gauge,
    /// Weighted samples of some quantity.
    Distribution,
    /// Events with a start and a stop time.
    TimeInterval,
}

} // verus!
