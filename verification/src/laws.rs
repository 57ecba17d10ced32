//! What holds of every channel, proved from the recording rules.

use crate::channel::ChannelView;
use crate::error::MetricsError;
use crate::histogram::{HistogramView, Percentile, Summary};
use crate::output::{Output, ReadingView};
use crate::point::Point;
use crate::source::Source;
use crate::statistic::StatisticView;
use vstd::prelude::*;

verus! {

/// A recording of another kind than the channel's changes nothing: not the
/// reading, the histogram, the extrema or the time of the last write.
pub proof fn other_kinds_are_ignored(
    c: ChannelView,
    time: u64,
    value: u64,
    count: u64,
    start: u64,
    stop: u64,
)
    ensures
        c.source() != Source::Counter ==> c.record_counter(time, value) == c,
        c.source() != Source::Counter ==> c.record_delta(time, value) == c,
        c.source() != Source::Counter ==> c.record_increment(time, count) == c,
        c.source() != Source::Distribution ==> c.record_distribution(time, value, count) == c,
        c.source() != Source::Gauge ==> c.record_gauge(time, value) == c,
        c.source() != Source::TimeInterval ==> c.record_time_interval(start, stop) == c,
{
}

/// No operation changes the descriptor of the metric, and so none changes
/// the kind of the channel; none adds or takes away the histogram.
pub proof fn descriptor_is_fixed(
    c: ChannelView,
    time: u64,
    value: u64,
    count: u64,
    start: u64,
    stop: u64,
    output: Output,
)
    ensures
        forall|next: ChannelView|
            {
                ||| next == c.record_counter(time, value)
                ||| next == c.record_delta(time, value)
                ||| next == c.record_increment(time, count)
                ||| next == c.record_distribution(time, value, count)
                ||| next == c.record_gauge(time, value)
                ||| next == c.record_time_interval(start, stop)
                ||| next == c.latch()
                ||| next == c.zero(time)
                ||| next == c.add_output(output)
                ||| next == c.delete_output(output)
            } ==> next.statistic == c.statistic && (next.histogram is None <==> c.histogram is None)
                && next.latched == c.latched,
{
}

/// On a fresh counter channel the first value is the baseline: it becomes
/// the reading, and neither the histogram nor the extrema see it. The
/// second value moves the reading by its wrapping distance from the first,
/// and the rate of that distance over the elapsed time is the one sample of
/// the histogram and both extrema.
pub proof fn counter_bootstrap(
    statistic: StatisticView,
    summary: Option<Summary>,
    limit: nat,
    now: u64,
    first_time: u64,
    first_value: u64,
    second_time: u64,
    second_value: u64,
)
    requires
        statistic.source == Source::Counter,
        limit > 0,
    ensures
        ({
            let fresh = ChannelView::fresh(statistic, summary, limit, now);
            let first = fresh.record_counter(first_time, first_value);
            let second = first.record_counter(second_time, second_value);
            let delta = second_value.wrapping_sub(first_value);
            let rate = crate::rate::rate_per_second(delta, second_time.wrapping_sub(first_time));
            &&& first == ChannelView {
                reading: first_value,
                has_data: true,
                last_write: first_time,
                ..fresh
            }
            &&& second.reading == first_value.wrapping_add(delta)
            &&& second.reading == second_value
            &&& second.last_write == second_time
            &&& second.has_data
            &&& second.max == Point { time: second_time, value: rate }
            &&& second.min == Point { time: second_time, value: rate }
            &&& summary is None ==> second.histogram is None
            &&& summary matches Some(s) ==> {
                &&& second.histogram == Some(
                    HistogramView::empty(s.max, limit).incremented(rate, 1),
                )
                &&& second.histogram->Some_0.total() == 1
                &&& second.histogram->Some_0.count(HistogramView::empty(s.max, limit).slot(rate))
                    == 1
            }
        }),
{
    let delta = second_value.wrapping_sub(first_value);
    let rate = crate::rate::rate_per_second(delta, second_time.wrapping_sub(first_time));
    if let Some(s) = summary {
        crate::histogram::empty_has_no_weight(s.max, limit);
        crate::histogram::increment_adds_weight(HistogramView::empty(s.max, limit), rate, 1);
    }
}

/// A counter's reading follows the value it is given, also where the value
/// is below the reading: the distance wraps at the width of the counter.
pub proof fn counter_reading_follows_value(c: ChannelView, time: u64, value: u64)
    requires
        c.source() == Source::Counter,
    ensures
        c.record_counter(time, value).reading == value,
        c.has_data ==> c.record_counter(time, value).reading == c.reading.wrapping_add(
            value.wrapping_sub(c.reading),
        ),
        value < c.reading ==> value.wrapping_sub(c.reading) == value + 0x1_0000_0000_0000_0000
            - c.reading,
        value >= c.reading ==> value.wrapping_sub(c.reading) == value - c.reading,
{
}

/// While no extremum is set, any observation becomes both the maximum and
/// the minimum, whatever its magnitude.
pub proof fn first_observation_sets_both_extrema(c: ChannelView, value: u64, time: u64)
    requires
        !c.max.is_set(),
        !c.min.is_set(),
    ensures
        c.observed(value, time).max == (Point { time, value }),
        c.observed(value, time).min == (Point { time, value }),
{
}

/// Once the extrema are set, an observation replaces the maximum only when
/// it is strictly greater and the minimum only when it is strictly less.
pub proof fn later_observation_replaces_strictly(c: ChannelView, value: u64, time: u64)
    requires
        c.max.is_set(),
        c.min.is_set(),
    ensures
        c.observed(value, time).max == if value > c.max.value {
            Point { time, value }
        } else {
            c.max
        },
        c.observed(value, time).min == if value < c.min.value {
            Point { time, value }
        } else {
            c.min
        },
{
}

/// On a fresh gauge channel the first value, taken at a time other than
/// zero, is the maximum and the minimum; the second replaces the maximum
/// only if it is greater and the minimum only if it is less.
pub proof fn gauge_extrema(
    statistic: StatisticView,
    summary: Option<Summary>,
    limit: nat,
    now: u64,
    first_time: u64,
    first_value: u64,
    second_time: u64,
    second_value: u64,
)
    requires
        statistic.source == Source::Gauge,
        first_time > 0,
    ensures
        ({
            let first = ChannelView::fresh(statistic, summary, limit, now).record_gauge(
                first_time,
                first_value,
            );
            let second = first.record_gauge(second_time, second_value);
            &&& first.max == Point { time: first_time, value: first_value }
            &&& first.min == Point { time: first_time, value: first_value }
            &&& second.max == if second_value > first_value {
                Point { time: second_time, value: second_value }
            } else {
                first.max
            }
            &&& second.min == if second_value < first_value {
                Point { time: second_time, value: second_value }
            } else {
                first.min
            }
        }),
{
}

/// Whether a channel that has no baseline has a reading of zero and unset
/// extrema, as a fresh channel has.
pub open spec fn awaits_baseline(c: ChannelView) -> bool {
    !c.has_data ==> c.reading == 0 && c.max == Point::unset() && c.min == Point::unset()
}

/// A fresh channel awaits its baseline, and so does a channel after a
/// counter value, a delta, a latch, a reset or a change of its outputs, if
/// it did before. (Gauges, distributions, increments and time intervals
/// move the reading without a baseline.)
pub proof fn baseline_is_awaited(
    c: ChannelView,
    time: u64,
    value: u64,
    now: u64,
    output: Output,
    summary: Option<Summary>,
    limit: nat,
)
    requires
        awaits_baseline(c),
    ensures
        awaits_baseline(ChannelView::fresh(c.statistic, summary, limit, now)),
        awaits_baseline(c.record_counter(time, value)),
        awaits_baseline(c.record_delta(time, value)),
        awaits_baseline(c.latch()),
        awaits_baseline(c.zero(now)),
        awaits_baseline(c.add_output(output)),
        awaits_baseline(c.delete_output(output)),
{
}

/// A latch resets the extrema, and empties the histogram of a latched
/// channel; the reading, the baseline flag and all else stay.
pub proof fn latch_keeps_the_reading(c: ChannelView)
    ensures
        c.latch() == (ChannelView {
            histogram: c.latch().histogram,
            max: Point::unset(),
            min: Point::unset(),
            ..c
        }),
        !c.latched ==> c.latch().histogram == c.histogram,
        c.latched ==> (c.histogram matches Some(h) ==> c.latch().histogram == Some(
            HistogramView::empty(h.max, h.limit),
        ) && c.latch().histogram->Some_0.total() == 0),
{
    if let Some(h) = c.histogram {
        crate::histogram::empty_has_no_weight(h.max, h.limit);
    }
}

/// Zeroing sets the reading to zero, drops the baseline, stamps the
/// channel, resets the extrema and empties the histogram, latched or not.
pub proof fn zero_resets_the_reading(c: ChannelView, now: u64)
    ensures
        c.zero(now).reading == 0,
        !c.zero(now).has_data,
        c.zero(now).last_write == now,
        c.zero(now).max == Point::unset(),
        c.zero(now).min == Point::unset(),
        c.histogram matches Some(h) ==> c.zero(now).histogram == Some(
            HistogramView::empty(h.max, h.limit),
        ) && c.zero(now).histogram->Some_0.total() == 0,
        c.latched ==> c.zero(now) == (ChannelView {
            reading: 0,
            has_data: false,
            last_write: now,
            ..c.latch()
        }),
{
    if let Some(h) = c.histogram {
        crate::histogram::empty_has_no_weight(h.max, h.limit);
    }
}

/// But for its outputs, a zeroed channel is as it was when it was created,
/// had it been created at the time of the reset.
pub proof fn zeroed_channel_is_as_fresh(
    statistic: StatisticView,
    summary: Option<Summary>,
    limit: nat,
    c: ChannelView,
    now: u64,
)
    requires
        c.statistic == statistic,
        c.latched,
        c.histogram is Some <==> summary is Some,
        c.histogram matches Some(h) ==> h.max == summary->Some_0.max && h.limit == limit,
    ensures
        c.zero(now) == (ChannelView {
            outputs: c.outputs,
            ..ChannelView::fresh(statistic, summary, limit, now)
        }),
{
}

/// A channel without a histogram has no percentile, ever.
pub proof fn percentile_without_histogram(c: ChannelView, p: Percentile, ppm: u32)
    requires
        c.histogram is None,
    ensures
        c.percentile(p) == Err::<u64, MetricsError>(MetricsError::NoSummary),
        c.percentile_at(ppm) == Err::<u64, MetricsError>(MetricsError::NoSummary),
{
}

/// A channel whose histogram is empty, as that of a fresh channel is, has
/// no percentile yet.
pub proof fn percentile_of_no_samples(c: ChannelView, p: Percentile, ppm: u32)
    requires
        c.histogram matches Some(h) && h.total() == 0,
    ensures
        c.percentile(p) == Err::<u64, MetricsError>(MetricsError::EmptyChannel),
        c.percentile_at(ppm) == Err::<u64, MetricsError>(MetricsError::EmptyChannel),
{
}

/// A fresh channel with a histogram has no percentile yet.
pub proof fn percentile_of_fresh_channel(
    statistic: StatisticView,
    summary: Summary,
    limit: nat,
    now: u64,
    p: Percentile,
)
    ensures
        ChannelView::fresh(statistic, Some(summary), limit, now).percentile(p) == Err::<
            u64,
            MetricsError,
        >(MetricsError::EmptyChannel),
{
    crate::histogram::empty_has_no_weight(summary.max, limit);
}

/// A channel whose histogram holds samples has every percentile: a value
/// at which samples were recorded.
pub proof fn percentile_of_samples(c: ChannelView, p: Percentile)
    requires
        p.wf(),
        c.histogram matches Some(h) && h.total() > 0,
    ensures
        c.percentile(p) matches Ok(value) && c.histogram->Some_0.is_quantile(p, value)
            && c.histogram->Some_0.count(value) > 0,
{
    crate::histogram::quantile_is_reached(c.histogram->Some_0, p);
}

/// After one recording on a fresh distribution channel every percentile is
/// the recorded value, or the largest value of the histogram where the
/// recorded one is above it.
pub proof fn percentile_of_one_sample(
    statistic: StatisticView,
    summary: Summary,
    limit: nat,
    now: u64,
    time: u64,
    value: u64,
    count: u64,
    p: Percentile,
)
    requires
        statistic.source == Source::Distribution,
        count > 0,
        limit > 0,
        p.wf(),
    ensures
        ChannelView::fresh(statistic, Some(summary), limit, now).record_distribution(
            time,
            value,
            count,
        ).percentile(p) == Ok::<u64, MetricsError>(
            if value > summary.max {
                summary.max
            } else {
                value
            },
        ),
{
    crate::histogram::quantile_of_single_value(summary.max, limit, value, count as nat, p);
}

proof fn lemma_filter_keeps_all<A>(s: Seq<A>, keep: spec_fn(A) -> bool)
    requires
        forall|i: int| 0 <= i < s.len() ==> keep(#[trigger] s[i]),
    ensures
        s.filter(keep) == s,
    decreases s.len(),
{
    reveal(Seq::filter);
    if s.len() > 0 {
        lemma_filter_keeps_all(s.drop_last(), keep);
        assert(s.drop_last().push(s.last()) =~= s);
    }
}

proof fn lemma_filter_map_keeps<A, B>(s: Seq<A>, f: spec_fn(A) -> Option<B>, i: int)
    requires
        0 <= i < s.len(),
        f(s[i]) is Some,
    ensures
        s.filter_map(f).contains(f(s[i])->Some_0),
    decreases s.len(),
{
    let rest = s.drop_last();
    let found = f(s[i])->Some_0;
    if i == s.len() - 1 {
        let mapped = rest.filter_map(f) + seq![found];
        assert(s.filter_map(f) == mapped);
        assert(mapped[mapped.len() - 1] == found);
    } else {
        lemma_filter_map_keeps(rest, f, i);
        let k = choose|k: int| 0 <= k < rest.filter_map(f).len() && rest.filter_map(f)[k] == found;
        assert(s.filter_map(f)[k] == found);
    }
}

/// An added output is registered, once: adding it again changes nothing.
pub proof fn added_output_is_registered(c: ChannelView, output: Output)
    ensures
        c.add_output(output).outputs.contains(output),
        c.outputs.contains(output) ==> c.add_output(output) == c,
        c.add_output(output).add_output(output) == c.add_output(output),
{
    let added = c.add_output(output).outputs;
    if !c.outputs.contains(output) {
        assert(added[added.len() - 1] == output);
    }
}

/// A deleted output is registered no more, and no reading reports it;
/// deleting one that is not registered changes nothing.
pub proof fn deleted_output_is_gone(c: ChannelView, output: Output)
    ensures
        !c.delete_output(output).outputs.contains(output),
        !c.outputs.contains(output) ==> c.delete_output(output) == c,
        forall|i: int|
            0 <= i < c.delete_output(output).readings().len() ==> (
            #[trigger] c.delete_output(output).readings()[i]).output != output,
        forall|i: int|
            0 <= i < c.delete_output(output).entries().len() ==> (#[trigger] c.delete_output(
                output,
            ).entries()[i]).0 != output,
{
    let after = c.delete_output(output);
    if after.outputs.contains(output) {
        let i = choose|i: int| 0 <= i < after.outputs.len() && after.outputs[i] == output;
        c.outputs.lemma_filter_pred(crate::channel::other_than(output), i);
    }
    if !c.outputs.contains(output) {
        lemma_filter_keeps_all(c.outputs, crate::channel::other_than(output));
    }
    assert forall|i: int| 0 <= i < after.readings().len() implies (
    #[trigger] after.readings()[i]).output != output by {
        let r = after.readings()[i];
        after.outputs.lemma_filter_map_contains(after.reading_of(), r);
    }
    assert forall|i: int| 0 <= i < after.entries().len() implies (
    #[trigger] after.entries()[i]).0 != output by {
        let e = after.entries()[i];
        after.outputs.lemma_filter_map_contains(after.entry_of(), e);
    }
}

/// Every registered output that has a value is reported with that value
/// under the name of the metric.
pub proof fn registered_output_is_reported(c: ChannelView, output: Output)
    requires
        c.outputs.contains(output),
        c.value(output) is Some,
    ensures
        c.readings().contains(
            ReadingView { label: c.statistic.name, output, value: c.value(output)->Some_0 },
        ),
        c.entries().contains((output, c.value(output)->Some_0)),
{
    let i = choose|i: int| 0 <= i < c.outputs.len() && c.outputs[i] == output;
    lemma_filter_map_keeps(c.outputs, c.reading_of(), i);
    lemma_filter_map_keeps(c.outputs, c.entry_of(), i);
}

/// Every reading reports a registered output, with its value and under the
/// name of the metric.
pub proof fn readings_come_from_outputs(c: ChannelView, reading: ReadingView)
    requires
        c.readings().contains(reading),
    ensures
        c.outputs.contains(reading.output),
        c.value(reading.output) == Some(reading.value),
        reading.label == c.statistic.name,
{
    c.outputs.lemma_filter_map_contains(c.reading_of(), reading);
}

proof fn lemma_filter_keeps_distinct<A>(s: Seq<A>, keep: spec_fn(A) -> bool)
    requires
        s.no_duplicates(),
    ensures
        s.filter(keep).no_duplicates(),
    decreases s.len(),
{
    reveal(Seq::filter);
    if s.len() > 0 {
        let rest = s.drop_last();
        lemma_filter_keeps_distinct(rest, keep);
        if keep(s.last()) {
            let kept = rest.filter(keep);
            if kept.contains(s.last()) {
                rest.lemma_filter_contains_rev(keep, s.last());
                let i = choose|i: int| 0 <= i < rest.len() && rest[i] == s.last();
                assert(s[i] == s[s.len() - 1]);
            }
            assert forall|i: int, j: int|
                0 <= i < kept.push(s.last()).len() && 0 <= j < kept.push(s.last()).len() && i
                    != j implies kept.push(s.last())[i] != kept.push(s.last())[j] by {
                if i < kept.len() {
                    assert(kept.contains(kept[i]));
                }
                if j < kept.len() {
                    assert(kept.contains(kept[j]));
                }
            }
        }
    }
}

proof fn lemma_entries_are_distinct(c: ChannelView, outputs: Seq<Output>)
    requires
        outputs.no_duplicates(),
    ensures
        forall|k: int|
            0 <= k < outputs.filter_map(c.entry_of()).len() ==> outputs.contains(
                (#[trigger] outputs.filter_map(c.entry_of())[k]).0,
            ),
        forall|i: int, j: int|
            0 <= i < j < outputs.filter_map(c.entry_of()).len() ==> outputs.filter_map(
                c.entry_of(),
            )[i].0 != outputs.filter_map(c.entry_of())[j].0,
    decreases outputs.len(),
{
    if outputs.len() > 0 {
        let rest = outputs.drop_last();
        let last = outputs.last();
        let found = rest.filter_map(c.entry_of());
        lemma_entries_are_distinct(c, rest);
        assert forall|k: int| 0 <= k < found.len() implies outputs.contains(
            (#[trigger] found[k]).0,
        ) && found[k].0 != last by {
            let m = choose|m: int| 0 <= m < rest.len() && rest[m] == found[k].0;
            assert(outputs[m] == found[k].0);
            assert(outputs[m] != outputs[outputs.len() - 1]);
        }
        assert(outputs[outputs.len() - 1] == last);
    }
}

/// Outputs are a set: while no output is registered twice, none is after
/// another is added or deleted, and none is reported twice.
pub proof fn outputs_stay_distinct(c: ChannelView, output: Output)
    requires
        c.outputs.no_duplicates(),
    ensures
        c.add_output(output).outputs.no_duplicates(),
        c.delete_output(output).outputs.no_duplicates(),
        forall|i: int, j: int|
            0 <= i < j < c.entries().len() ==> c.entries()[i].0 != c.entries()[j].0,
{
    let added = c.add_output(output).outputs;
    if !c.outputs.contains(output) {
        assert forall|i: int, j: int|
            0 <= i < added.len() && 0 <= j < added.len() && i != j implies added[i]
            != added[j] by {
            if i < c.outputs.len() {
                assert(c.outputs.contains(added[i]));
            }
            if j < c.outputs.len() {
                assert(c.outputs.contains(added[j]));
            }
        }
    }
    lemma_filter_keeps_distinct(c.outputs, crate::channel::other_than(output));
    lemma_entries_are_distinct(c, c.outputs);
}

} // verus!
