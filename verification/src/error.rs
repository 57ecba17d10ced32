use vstd::prelude::*;

verus! {

/// The ways a percentile query can fail.
#[derive(Clone, Copy, Debug, PartialEq, Eq, Structural, Hash)]
pub enum MetricsError {
    /// The histogram holds no samples yet. Later queries may succeed.
    EmptyChannel,
    /// The channel was created without a histogram. Permanent.
    NoSummary,
}

} // verus!
