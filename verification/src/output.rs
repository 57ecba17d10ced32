use crate::histogram::Percentile;
use vstd::prelude::*;

verus! {

/// A view of a channel's state that can be asked for by name.
#[derive(Clone, Copy, Debug, PartialEq, Eq, Structural, Hash)]
pub enum Output {
    /// The current reading.
    Reading,
    /// The time at which the maximum was observed.
    MaxPointTime,
    /// The time at which the minimum was observed.
    MinPointTime,
    /// The value at a percentile of the histogram.
    Percentile(Percentile),
}

/// What a reading says: which metric, which output, and its value.
pub struct ReadingView {
    pub label: Seq<char>,
    pub output: Output,
    pub value: u64,
}

/// The exported record for one output of one metric.
#[derive(Clone, Debug, PartialEq, Eq)]
pub struct Reading {
    label: String,
    output: Output,
    value: u64,
}

impl View for Reading {
    type V = ReadingView;

    closed spec fn view(&self) -> ReadingView {
        ReadingView { label: self.label@, output: self.output, value: self.value }
    }
}

/// What each reading of a sequence says.
pub open spec fn views_of(readings: Seq<Reading>) -> Seq<ReadingView> {
    readings.map_values(|r: Reading| r@)
}

impl Reading {
    pub fn new(label: String, output: Output, value: u64) -> (r: Reading)
        ensures
            r@ == (ReadingView { label: label@, output, value }),
    {
        Reading { label, output, value }
    }

    /// The name of the metric.
    pub fn label(&self) -> (label: &str)
        ensures
            label@ == self@.label,
    {
        self.label.as_str()
    }

    pub fn output(&self) -> (output: Output)
        ensures
            output == self@.output,
    {
        self.output
    }

    pub fn value(&self) -> (value: u64)
        ensures
            value == self@.value,
    {
        self.value
    }
}

} // verus!
