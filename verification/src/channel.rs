use crate::clock::precise_time_ns;
use crate::count::Count;
use crate::error::MetricsError;
use crate::histogram::{Histogram, HistogramView, Percentile, Summary};
use crate::output::{Output, Reading, ReadingView};
use crate::point::Point;
use crate::rate::rate;
use crate::source::Source;
use crate::statistic::{ChannelStatistic, Statistic, StatisticView};
use vstd::prelude::*;
use vstd::std_specs::cmp::PartialEqSpecImpl;

verus! {

/// The state of a channel.
pub struct ChannelView {
    /// The descriptor of the metric.
    pub statistic: StatisticView,
    /// The cumulative or latest value.
    pub reading: u64,
    /// The histogram, where the channel was created with one.
    pub histogram: Option<HistogramView>,
    /// The time of the last recording that stamps it.
    pub last_write: u64,
    /// Whether `latch` clears the histogram.
    pub latched: bool,
    /// Where the largest rate or value was seen.
    pub max: Point,
    /// Where the smallest rate or value was seen.
    pub min: Point,
    /// The registered outputs, in the order in which they are reported.
    pub outputs: Seq<Output>,
    /// Whether a counter has its baseline.
    pub has_data: bool,
}

/// The histogram a channel starts with, where its counts go up to `limit`.
pub open spec fn histogram_of(summary: Option<Summary>, limit: nat) -> Option<HistogramView> {
    match summary {
        Some(s) => Some(HistogramView::empty(s.max, limit)),
        None => None,
    }
}

/// Holds of every output but `output`.
pub open spec fn other_than(output: Output) -> spec_fn(Output) -> bool {
    |o: Output| o != output
}

impl ChannelView {
    /// A channel that has recorded nothing, created at time `now`, whose
    /// histogram counts up to `limit`.
    pub open spec fn fresh(
        statistic: StatisticView,
        summary: Option<Summary>,
        limit: nat,
        now: u64,
    ) -> ChannelView {
        ChannelView {
            statistic,
            reading: 0,
            histogram: histogram_of(summary, limit),
            last_write: now,
            latched: true,
            max: Point::unset(),
            min: Point::unset(),
            outputs: Seq::empty(),
            has_data: false,
        }
    }

    /// The kind of measurement the channel accepts.
    pub open spec fn source(self) -> Source {
        self.statistic.source
    }

    /// The channel after its histogram, if it has one, took `weight`
    /// samples of `value`.
    pub open spec fn sampled(self, value: u64, weight: nat) -> ChannelView {
        ChannelView {
            histogram: match self.histogram {
                Some(h) => Some(h.incremented(value, weight)),
                None => None,
            },
            ..self
        }
    }

    /// The channel after both extremum trackers were offered `value`,
    /// observed at `time`.
    pub open spec fn observed(self, value: u64, time: u64) -> ChannelView {
        ChannelView {
            max: self.max.raised(value, time),
            min: self.min.lowered(value, time),
            ..self
        }
    }

    /// A cumulative counter value read at `time`. The first one is the
    /// baseline. Each later one adds its distance from the reading to the
    /// reading, and records the rate over the time since the last write.
    /// Both distances wrap.
    pub open spec fn record_counter(self, time: u64, value: u64) -> ChannelView {
        if self.source() != Source::Counter {
            self
        } else if self.has_data {
            let delta = value.wrapping_sub(self.reading);
            let elapsed = time.wrapping_sub(self.last_write);
            let rate = crate::rate::rate_per_second(delta, elapsed);
            ChannelView {
                reading: self.reading.wrapping_add(delta),
                last_write: time,
                ..self.sampled(rate, 1).observed(rate, time)
            }
        } else {
            ChannelView { reading: value, has_data: true, last_write: time, ..self }
        }
    }

    /// An increase of `value` observed at `time`. The first one is the
    /// baseline. Each later one is added to the reading, and its rate over
    /// the time since the last write is recorded.
    pub open spec fn record_delta(self, time: u64, value: u64) -> ChannelView {
        if self.source() != Source::Counter {
            self
        } else if self.has_data {
            let elapsed = time.wrapping_sub(self.last_write);
            let rate = crate::rate::rate_per_second(value, elapsed);
            ChannelView {
                reading: self.reading.wrapping_add(value),
                last_write: time,
                ..self.sampled(rate, 1).observed(rate, time)
            }
        } else {
            ChannelView { reading: value, has_data: true, last_write: time, ..self }
        }
    }

    /// `count` samples of `value`, taken at `time`.
    pub open spec fn record_distribution(self, time: u64, value: u64, count: u64) -> ChannelView {
        if self.source() != Source::Distribution {
            self
        } else {
            ChannelView {
                reading: self.reading.wrapping_add(count),
                last_write: time,
                ..self.sampled(value, count as nat)
            }
        }
    }

    /// The instantaneous `value` at `time`.
    pub open spec fn record_gauge(self, time: u64, value: u64) -> ChannelView {
        if self.source() != Source::Gauge {
            self
        } else {
            ChannelView {
                reading: value,
                last_write: time,
                ..self.sampled(value, 1).observed(value, time)
            }
        }
    }

    /// A tally of `count` events at `time`.
    pub open spec fn record_increment(self, time: u64, count: u64) -> ChannelView {
        if self.source() != Source::Counter {
            self
        } else {
            ChannelView {
                reading: self.reading.wrapping_add(count),
                last_write: time,
                ..self.sampled(count, 1)
            }
        }
    }

    /// One event that lasted from `start` to `stop`.
    pub open spec fn record_time_interval(self, start: u64, stop: u64) -> ChannelView {
        if self.source() != Source::TimeInterval {
            self
        } else {
            let duration = stop.wrapping_sub(start);
            ChannelView {
                reading: self.reading.wrapping_add(1),
                ..self.sampled(duration, 1).observed(duration, start)
            }
        }
    }

    /// The end of a reporting window.
    pub open spec fn latch(self) -> ChannelView {
        ChannelView {
            histogram: match self.histogram {
                Some(h) => Some(
                    if self.latched {
                        h.cleared()
                    } else {
                        h
                    },
                ),
                None => None,
            },
            max: Point::unset(),
            min: Point::unset(),
            ..self
        }
    }

    /// The channel reset at time `now`: as fresh, but for its outputs.
    pub open spec fn zero(self, now: u64) -> ChannelView {
        ChannelView {
            reading: 0,
            histogram: match self.histogram {
                Some(h) => Some(h.cleared()),
                None => None,
            },
            last_write: now,
            max: Point::unset(),
            min: Point::unset(),
            has_data: false,
            ..self
        }
    }

    /// The channel with `output` registered: at the end, unless it is
    /// registered already.
    pub open spec fn add_output(self, output: Output) -> ChannelView {
        ChannelView {
            outputs: if self.outputs.contains(output) {
                self.outputs
            } else {
                self.outputs.push(output)
            },
            ..self
        }
    }

    /// The channel without `output` among its outputs.
    pub open spec fn delete_output(self, output: Output) -> ChannelView {
        ChannelView { outputs: self.outputs.filter(other_than(output)), ..self }
    }

    /// The value at percentile `p` of the histogram.
    pub open spec fn percentile(self, p: Percentile) -> Result<u64, MetricsError> {
        match self.histogram {
            None => Err(MetricsError::NoSummary),
            Some(h) => match h.quantile(p) {
                Some(value) => Ok(value),
                None => Err(MetricsError::EmptyChannel),
            },
        }
    }

    /// The value at `ppm` millionths of the histogram. Millionths that are
    /// no percentile, 0 and those from one million on, are a request that
    /// the histogram cannot answer: they fail as an empty histogram does,
    /// or as a missing one where there is none.
    pub open spec fn percentile_at(self, ppm: u32) -> Result<u64, MetricsError> {
        if 0 < ppm < 1_000_000 {
            self.percentile(Percentile::at(ppm))
        } else if self.histogram is None {
            Err(MetricsError::NoSummary)
        } else {
            Err(MetricsError::EmptyChannel)
        }
    }

    /// The current value of `output`, if it has one. Both timestamps are
    /// guarded by the time of the maximum: the timestamp of the minimum is
    /// reported while the maximum is set, whether the minimum is or not. So
    /// after an observation stamped 0 a set minimum can go unreported, or a
    /// minimum time of 0 can be reported.
    pub open spec fn value(self, output: Output) -> Option<u64> {
        match output {
            Output::Reading => Some(self.reading),
            Output::MaxPointTime => if self.max.time > 0 {
                Some(self.max.time)
            } else {
                None
            },
            Output::MinPointTime => if self.max.time > 0 {
                Some(self.min.time)
            } else {
                None
            },
            Output::Percentile(p) => match self.percentile(p) {
                Ok(value) => Some(value),
                Err(_) => None,
            },
        }
    }

    /// The reading that `output` gives, if it has a value.
    pub open spec fn reading_of(self) -> spec_fn(Output) -> Option<ReadingView> {
        |output: Output|
            match self.value(output) {
                Some(value) => Some(ReadingView { label: self.statistic.name, output, value }),
                None => None,
            }
    }

    /// The output together with its value, if it has one.
    pub open spec fn entry_of(self) -> spec_fn(Output) -> Option<(Output, u64)> {
        |output: Output|
            match self.value(output) {
                Some(value) => Some((output, value)),
                None => None,
            }
    }

    /// One reading for each registered output that has a value.
    pub open spec fn readings(self) -> Seq<ReadingView> {
        self.outputs.filter_map(self.reading_of())
    }

    /// Each registered output that has a value, with that value.
    pub open spec fn entries(self) -> Seq<(Output, u64)> {
        self.outputs.filter_map(self.entry_of())
    }
}

/// A channel tracks measurements that are taken from the same datasource.
/// For example, you might use a channel to track requests and another for
/// CPU utilization.
pub struct Channel<C: Count> {
    statistic: ChannelStatistic,
    source: Source,
    reading: u64,
    histogram: Option<Histogram<C>>,
    last_write: u64,
    latched: bool,
    max: Point,
    min: Point,
    outputs: Vec<Output>,
    has_data: bool,
}

impl<C: Count> View for Channel<C> {
    type V = ChannelView;

    closed spec fn view(&self) -> ChannelView {
        ChannelView {
            statistic: self.statistic@,
            reading: self.reading,
            histogram: match self.histogram {
                Some(h) => Some(h@),
                None => None,
            },
            last_write: self.last_write,
            latched: self.latched,
            max: self.max,
            min: self.min,
            outputs: self.outputs@,
            has_data: self.has_data,
        }
    }
}

impl<C: Count> Channel<C> {
    #[verifier::type_invariant]
    spec fn wf(self) -> bool {
        &&& self.source == self.statistic@.source
        &&& self.outputs@.no_duplicates()
    }

    /// Create a new channel for the metric that `statistic` describes, with
    /// an optional histogram which can be used to generate percentile
    /// metrics. The channel keeps what `statistic` says of itself now, and
    /// is stamped with the present time.
    pub fn new<S: Statistic + ?Sized>(statistic: &S, summary: Option<Summary>) -> (channel:
        Channel<C>)
        ensures
            crate::statistic::describes(statistic, channel@.statistic),
            channel@ == ChannelView::fresh(
                channel@.statistic,
                summary,
                C::limit(),
                channel@.last_write,
            ),
    {
        Channel::new_at(ChannelStatistic::new(statistic), summary, precise_time_ns())
    }

    /// Create a new channel for the metric that `statistic` describes, as
    /// `new` does, stamped with the time `now`.
    pub fn new_at(statistic: ChannelStatistic, summary: Option<Summary>, now: u64) -> (channel:
        Channel<C>)
        ensures
            channel@ == ChannelView::fresh(statistic@, summary, C::limit(), now),
    {
        let histogram = match summary {
            Some(summary) => Some(summary.build_histogram()),
            None => None,
        };
        let source = statistic.source();
        Channel {
            statistic,
            source,
            reading: 0,
            histogram,
            last_write: now,
            latched: true,
            max: Point::new(0, 0),
            min: Point::new(0, 0),
            outputs: Vec::new(),
            has_data: false,
        }
    }

    fn sample(&mut self, value: u64, weight: C)
        ensures
            final(self)@ == old(self)@.sampled(value, weight.number()),
    {
        proof {
            use_type_invariant(&*self);
        }
        let mut histogram: Option<Histogram<C>> = None;
        std::mem::swap(&mut histogram, &mut self.histogram);
        match histogram {
            Some(mut h) => {
                h.increment(value, weight);
                self.histogram = Some(h);
            },
            None => {},
        }
    }

    fn observe(&mut self, value: u64, time: u64)
        ensures
            final(self)@ == old(self)@.observed(value, time),
    {
        proof {
            use_type_invariant(&*self);
        }
        let mut max = self.max;
        max.raise(value, time);
        self.max = max;
        let mut min = self.min;
        min.lower(value, time);
        self.min = min;
    }

    fn forget(&mut self)
        ensures
            final(self)@ == (ChannelView {
                histogram: match old(self)@.histogram {
                    Some(h) => Some(h.cleared()),
                    None => None,
                },
                ..old(self)@
            }),
    {
        proof {
            use_type_invariant(&*self);
        }
        let mut histogram: Option<Histogram<C>> = None;
        std::mem::swap(&mut histogram, &mut self.histogram);
        match histogram {
            Some(mut h) => {
                h.clear();
                self.histogram = Some(h);
            },
            None => {},
        }
    }

    /// For counter measurements: the reading tracks the value, the
    /// histogram tracks the rate of change.
    pub fn record_counter(&mut self, time: u64, value: u64)
        ensures
            final(self)@ == old(self)@.record_counter(time, value),
    {
        proof {
            use_type_invariant(&*self);
        }
        if self.source == Source::Counter {
            if self.has_data {
                let delta_value: u64 = value.wrapping_sub(self.reading);
                let delta_time: u64 = time.wrapping_sub(self.last_write);
                let rate: u64 = rate(delta_value, delta_time);
                self.reading = self.reading.wrapping_add(delta_value);
                self.sample(rate, C::one());
                self.observe(rate, time);
                proof {
                    use_type_invariant(&*self);
                }
            } else {
                self.reading = value;
                self.has_data = true;
            }
            self.last_write = time;
        }
    }

    /// For delta measurements: the reading is the sum of the values, the
    /// histogram tracks the rate of change.
    pub fn record_delta(&mut self, time: u64, value: u64)
        ensures
            final(self)@ == old(self)@.record_delta(time, value),
    {
        proof {
            use_type_invariant(&*self);
        }
        if self.source == Source::Counter {
            if self.has_data {
                let delta_time: u64 = time.wrapping_sub(self.last_write);
                let rate: u64 = rate(value, delta_time);
                self.reading = self.reading.wrapping_add(value);
                self.sample(rate, C::one());
                self.observe(rate, time);
                proof {
                    use_type_invariant(&*self);
                }
            } else {
                self.reading = value;
                self.has_data = true;
            }
            self.last_write = time;
        }
    }

    /// For distribution measurements: the reading tracks the sum of all
    /// counts, the histogram tracks the values.
    pub fn record_distribution(&mut self, time: u64, value: u64, count: C)
        ensures
            final(self)@ == old(self)@.record_distribution(time, value, count.number() as u64),
    {
        proof {
            use_type_invariant(&*self);
        }
        if self.source == Source::Distribution {
            self.reading = self.reading.wrapping_add(count.into_u64());
            self.sample(value, count);
            proof {
                use_type_invariant(&*self);
            }
            self.last_write = time;
        }
    }

    /// For gauge measurements: the reading tracks the latest value, the
    /// histogram tracks the values, and the extrema track the largest and
    /// the smallest value.
    pub fn record_gauge(&mut self, time: u64, value: u64)
        ensures
            final(self)@ == old(self)@.record_gauge(time, value),
    {
        proof {
            use_type_invariant(&*self);
        }
        if self.source == Source::Gauge {
            self.reading = value;
            self.sample(value, C::one());
            self.observe(value, time);
            proof {
                use_type_invariant(&*self);
            }
            self.last_write = time;
        }
    }

    /// For increment measurements: the reading tracks the sum of all
    /// increments, the histogram tracks their magnitude.
    pub fn record_increment(&mut self, time: u64, count: C)
        ensures
            final(self)@ == old(self)@.record_increment(time, count.number() as u64),
    {
        proof {
            use_type_invariant(&*self);
        }
        if self.source == Source::Counter {
            let magnitude: u64 = count.into_u64();
            self.reading = self.reading.wrapping_add(magnitude);
            self.sample(magnitude, C::one());
            proof {
                use_type_invariant(&*self);
            }
            self.last_write = time;
        }
    }

    /// For time interval measurements: the reading tracks the number of
    /// events, the histogram tracks their duration, and the extrema track
    /// the longest and the shortest event, by its start.
    pub fn record_time_interval(&mut self, start: u64, stop: u64)
        ensures
            final(self)@ == old(self)@.record_time_interval(start, stop),
    {
        proof {
            use_type_invariant(&*self);
        }
        if self.source == Source::TimeInterval {
            self.reading = self.reading.wrapping_add(1);
            let duration: u64 = stop.wrapping_sub(start);
            self.sample(duration, C::one());
            self.observe(duration, start);
        }
    }

    /// Get the reading (counter or gauge) from the `Channel`
    pub fn reading(&self) -> (reading: u64)
        ensures
            reading == self@.reading,
    {
        self.reading
    }

    /// Calculate a percentile from the histogram.
    pub fn percentile(&self, percentile: Percentile) -> (result: Result<u64, MetricsError>)
        ensures
            result == self@.percentile(percentile),
    {
        match &self.histogram {
            Some(histogram) => match histogram.percentile(percentile) {
                Some(value) => Ok(value),
                None => Err(MetricsError::EmptyChannel),
            },
            None => Err(MetricsError::NoSummary),
        }
    }

    /// Calculate the percentile at `ppm` millionths from the histogram.
    pub fn percentile_at(&self, ppm: u32) -> (result: Result<u64, MetricsError>)
        ensures
            result == self@.percentile_at(ppm),
    {
        match Percentile::new(ppm) {
            Some(percentile) => self.percentile(percentile),
            None => match &self.histogram {
                Some(_) => Err(MetricsError::EmptyChannel),
                None => Err(MetricsError::NoSummary),
            },
        }
    }

    /// The current value of `output`, if it has one.
    pub fn value(&self, output: Output) -> (value: Option<u64>)
        ensures
            value == self@.value(output),
    {
        match output {
            Output::Reading => Some(self.reading),
            Output::MaxPointTime => {
                if self.max.time() > 0 {
                    Some(self.max.time())
                } else {
                    None
                }
            },
            Output::MinPointTime => {
                if self.max.time() > 0 {
                    Some(self.min.time())
                } else {
                    None
                }
            },
            Output::Percentile(percentile) => match self.percentile(percentile) {
                Ok(value) => Some(value),
                Err(_) => None,
            },
        }
    }

    /// Resets any latched aggregators: the histogram if the channel is
    /// latched, and always the maximum and the minimum.
    pub fn latch(&mut self)
        ensures
            final(self)@ == old(self)@.latch(),
    {
        proof {
            use_type_invariant(&*self);
        }
        if self.latched {
            self.forget();
            proof {
                use_type_invariant(&*self);
            }
        }
        self.max = Point::new(0, 0);
        self.min = Point::new(0, 0);
    }

    /// Zeros out all stored data for the `Channel`, and stamps it with the
    /// present time.
    pub fn zero(&mut self)
        ensures
            final(self)@ == old(self)@.zero(final(self)@.last_write),
    {
        self.zero_at(precise_time_ns());
    }

    /// Zeros out all stored data for the `Channel`, and stamps it with the
    /// time `now`.
    pub fn zero_at(&mut self, now: u64)
        ensures
            final(self)@ == old(self)@.zero(now),
    {
        proof {
            use_type_invariant(&*self);
        }
        self.has_data = false;
        self.last_write = now;
        self.reading = 0;
        self.forget();
        proof {
            use_type_invariant(&*self);
        }
        self.max = Point::new(0, 0);
        self.min = Point::new(0, 0);
    }

    /// Calculates the total set of `Readings` that are produced based on the
    /// `Outputs` which have been added for the `Channel`
    pub fn readings(&self) -> (result: Vec<Reading>)
        ensures
            crate::output::views_of(result@) == self@.readings(),
    {
        let mut result: Vec<Reading> = Vec::new();
        let n: usize = self.outputs.len();
        let mut i: usize = 0;
        assert(crate::output::views_of(result@) =~= self@.outputs.take(0).filter_map(self@.reading_of()));
        while i < n
            invariant
                i <= n,
                n == self.outputs.len(),
                crate::output::views_of(result@) == self@.outputs.take(i as int).filter_map(self@.reading_of()),
            decreases n - i,
        {
            let output = self.outputs[i];
            let ghost before = result@;
            proof {
                self@.outputs.lemma_filter_map_take_succ(self@.reading_of(), i as int);
            }
            match self.value(output) {
                Some(value) => {
                    result.push(Reading::new(self.statistic.name().to_string(), output, value));
                    assert(crate::output::views_of(result@) =~= crate::output::views_of(before) + seq![
                        ReadingView { label: self@.statistic.name, output, value },
                    ]);
                },
                None => {},
            }
            i += 1;
        }
        assert(self@.outputs.take(n as int) =~= self@.outputs);
        result
    }

    fn has_output(&self, output: Output) -> (found: bool)
        ensures
            found == self@.outputs.contains(output),
    {
        let n: usize = self.outputs.len();
        let mut i: usize = 0;
        while i < n
            invariant
                i <= n,
                n == self.outputs.len(),
                forall|k: int| 0 <= k < i ==> self.outputs[k] != output,
            decreases n - i,
        {
            if self.outputs[i] == output {
                return true;
            }
            i += 1;
        }
        false
    }

    /// Register an `Output` for exposition. One that is registered already
    /// stays where it is.
    pub fn add_output(&mut self, output: Output)
        ensures
            final(self)@ == old(self)@.add_output(output),
    {
        proof {
            use_type_invariant(&*self);
        }
        if !self.has_output(output) {
            let mut outputs: Vec<Output> = Vec::new();
            std::mem::swap(&mut outputs, &mut self.outputs);
            outputs.push(output);
            self.outputs = outputs;
        }
    }

    /// Remove an `Output` from exposition. The others keep their order.
    pub fn delete_output(&mut self, output: Output)
        ensures
            final(self)@ == old(self)@.delete_output(output),
    {
        proof {
            use_type_invariant(&*self);
        }
        let mut outputs: Vec<Output> = Vec::new();
        std::mem::swap(&mut outputs, &mut self.outputs);
        let ghost before = outputs@;
        let mut kept: Vec<Output> = Vec::new();
        let n: usize = outputs.len();
        let mut i: usize = 0;
        proof {
            reveal(Seq::filter);
            assert(before.take(0).filter(other_than(output)) =~= kept@);
        }
        while i < n
            invariant
                i <= n,
                n == before.len(),
                outputs@ == before,
                before.no_duplicates(),
                kept@ == before.take(i as int).filter(other_than(output)),
                kept@.no_duplicates(),
                forall|k: int|
                    0 <= k < kept.len() ==> exists|m: int| 0 <= m < i && before[m] == #[trigger] kept[k],
            decreases n - i,
        {
            let o = outputs[i];
            proof {
                reveal(Seq::filter);
                assert(before.take(i + 1).drop_last() =~= before.take(i as int));
            }
            if o != output {
                kept.push(o);
            }
            i += 1;
        }
        proof {
            assert(before.take(n as int) =~= before);
        }
        self.outputs = kept;
    }

    /// Calculates and returns the `Output`s with their values, one entry for
    /// each registered output that has a value. No output occurs twice.
    pub fn hash_map(&self) -> (result: Vec<(Output, u64)>)
        ensures
            result@ == self@.entries(),
            forall|i: int, j: int| 0 <= i < j < result.len() ==> result[i].0 != result[j].0,
    {
        proof {
            use_type_invariant(self);
        }
        let mut result: Vec<(Output, u64)> = Vec::new();
        let n: usize = self.outputs.len();
        let mut i: usize = 0;
        assert(result@ =~= self@.outputs.take(0).filter_map(self@.entry_of()));
        while i < n
            invariant
                i <= n,
                n == self.outputs.len(),
                self.outputs@.no_duplicates(),
                result@ == self@.outputs.take(i as int).filter_map(self@.entry_of()),
                forall|k: int|
                    0 <= k < result.len() ==> exists|m: int|
                        0 <= m < i && self.outputs[m] == (#[trigger] result[k]).0,
                forall|a: int, b: int| 0 <= a < b < result.len() ==> result[a].0 != result[b].0,
            decreases n - i,
        {
            let output = self.outputs[i];
            proof {
                self@.outputs.lemma_filter_map_take_succ(self@.entry_of(), i as int);
            }
            match self.value(output) {
                Some(value) => {
                    result.push((output, value));
                },
                None => {},
            }
            i += 1;
        }
        assert(self@.outputs.take(n as int) =~= self@.outputs);
        result
    }

    /// Where the largest rate or value was seen.
    pub fn max(&self) -> (max: Point)
        ensures
            max == self@.max,
    {
        self.max
    }

    /// Where the smallest rate or value was seen.
    pub fn min(&self) -> (min: Point)
        ensures
            min == self@.min,
    {
        self.min
    }

    /// Whether a counter has its baseline.
    pub fn has_data(&self) -> (has_data: bool)
        ensures
            has_data == self@.has_data,
    {
        self.has_data
    }

    /// The time of the last recording that stamps it.
    pub fn last_write(&self) -> (last_write: u64)
        ensures
            last_write == self@.last_write,
    {
        self.last_write
    }

    /// The descriptor of the metric.
    pub fn statistic(&self) -> (statistic: &ChannelStatistic)
        ensures
            statistic@ == self@.statistic,
    {
        &self.statistic
    }
}

/// Channels are told apart by the name of their metric.
impl<C: Count> PartialEq for Channel<C> {
    fn eq(&self, other: &Channel<C>) -> (same: bool) {
        self.statistic.same_name(&other.statistic)
    }
}

impl<C: Count> PartialEqSpecImpl for Channel<C> {
    open spec fn obeys_eq_spec() -> bool {
        true
    }

    open spec fn eq_spec(&self, other: &Channel<C>) -> bool {
        self@.statistic.name == other@.statistic.name
    }
}

impl<C: Count> Eq for Channel<C> {

}

} // verus!
