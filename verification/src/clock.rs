use vstd::prelude::*;

verus! {

/// Reads the clock through `time::precise_time_ns`, which returns the
/// nanoseconds of a high-resolution counter since an unspecified epoch.
/// Nothing is claimed of the value: it differs from call to call.
#[verifier::external_body]
pub(crate) fn precise_time_ns() -> (now: u64) {
    time::precise_time_ns()
}

} // verus!
