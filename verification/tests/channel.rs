use metrics::{
    Channel, ChannelStatistic, MetricsError, Output, Percentile, Point, Reading, Source,
    Statistic, Summary,
};

struct Named {
    name: &'static str,
    source: Source,
}

impl Statistic for Named {
    fn name(&self) -> &str {
        self.name
    }

    fn description(&self) -> Option<&str> {
        Some("a test metric")
    }

    fn source(&self) -> Source {
        self.source
    }

    fn unit(&self) -> Option<&str> {
        None
    }
}

fn channel(source: Source, summary: Option<Summary>) -> Channel<u64> {
    let statistic = ChannelStatistic::new(&Named {
        name: "requests",
        source,
    });
    Channel::new_at(statistic, summary, 500)
}

fn median() -> Percentile {
    Percentile::new(500_000).unwrap()
}

#[test]
fn counter_scenario_end_to_end() {
    let mut c = channel(Source::Counter, Some(Summary::histogram(1_000_000)));
    c.record_counter(1_000_000_000, 100);
    c.record_counter(2_000_000_000, 300);
    assert_eq!(c.reading(), 300);
    assert_eq!(c.max(), Point::new(200, 2_000_000_000));
    assert_eq!(c.min(), Point::new(200, 2_000_000_000));
    assert_eq!(c.percentile(Percentile::new(1).unwrap()), Ok(200));
    assert_eq!(c.percentile(median()), Ok(200));
    assert_eq!(c.percentile(Percentile::new(999_999).unwrap()), Ok(200));
    assert_eq!(c.last_write(), 2_000_000_000);
}

#[test]
fn fresh_channel_is_empty() {
    let c = channel(Source::Counter, Some(Summary::histogram(100)));
    assert_eq!(c.reading(), 0);
    assert!(!c.has_data());
    assert_eq!(c.last_write(), 500);
    assert_eq!(c.max(), Point::new(0, 0));
    assert_eq!(c.min(), Point::new(0, 0));
    assert_eq!(c.readings(), vec![]);
    assert_eq!(c.hash_map(), vec![]);
    assert_eq!(c.statistic().name(), "requests");
    assert_eq!(c.statistic().description(), Some("a test metric"));
    assert_eq!(c.statistic().unit(), None);
    assert_eq!(c.statistic().source(), Source::Counter);
}

#[test]
fn new_stamps_the_channel_and_starts_empty() {
    let c: Channel<u32> = Channel::new(
        &Named {
            name: "cpu",
            source: Source::Gauge,
        },
        None,
    );
    assert_eq!(c.reading(), 0);
    assert!(!c.has_data());
    assert_eq!(c.max(), Point::new(0, 0));
    assert_eq!(c.statistic().name(), "cpu");
    assert_eq!(c.percentile(median()), Err(MetricsError::NoSummary));
}

#[test]
fn new_accepts_a_trait_object() {
    let named = Named {
        name: "cpu",
        source: Source::Gauge,
    };
    let statistic: &dyn Statistic = &named;
    let mut c: Channel<u8> = Channel::new(statistic, None);
    c.record_gauge(2, 9);
    assert_eq!(c.reading(), 9);
    let copy = ChannelStatistic::new(statistic);
    assert_eq!(copy.name(), "cpu");
    assert_eq!(copy.source(), Source::Gauge);
}

#[test]
fn counter_call_on_other_kinds_changes_nothing() {
    for source in [Source::Gauge, Source::Distribution, Source::TimeInterval] {
        let mut c = channel(source, Some(Summary::histogram(1_000)));
        c.record_counter(10, 5);
        c.record_counter(20, 9);
        c.record_delta(30, 4);
        c.record_delta(40, 4);
        c.record_increment(50, 3);
        assert_eq!(c.reading(), 0);
        assert!(!c.has_data());
        assert_eq!(c.last_write(), 500);
        assert_eq!(c.max(), Point::new(0, 0));
        assert_eq!(c.min(), Point::new(0, 0));
        assert_eq!(c.percentile(median()), Err(MetricsError::EmptyChannel));
    }
}

#[test]
fn gauge_call_on_other_kinds_changes_nothing() {
    for source in [Source::Counter, Source::Distribution, Source::TimeInterval] {
        let mut c = channel(source, Some(Summary::histogram(1_000)));
        c.record_gauge(10, 5);
        assert_eq!(c.reading(), 0);
        assert_eq!(c.last_write(), 500);
        assert_eq!(c.max(), Point::new(0, 0));
        assert_eq!(c.min(), Point::new(0, 0));
        assert_eq!(c.percentile(median()), Err(MetricsError::EmptyChannel));
    }
}

#[test]
fn distribution_call_on_other_kinds_changes_nothing() {
    for source in [Source::Counter, Source::Gauge, Source::TimeInterval] {
        let mut c = channel(source, Some(Summary::histogram(1_000)));
        c.record_distribution(10, 5, 2);
        assert_eq!(c.reading(), 0);
        assert_eq!(c.last_write(), 500);
        assert_eq!(c.percentile(median()), Err(MetricsError::EmptyChannel));
    }
}

#[test]
fn time_interval_call_on_other_kinds_changes_nothing() {
    for source in [Source::Counter, Source::Gauge, Source::Distribution] {
        let mut c = channel(source, Some(Summary::histogram(1_000)));
        c.record_time_interval(10, 25);
        assert_eq!(c.reading(), 0);
        assert_eq!(c.max(), Point::new(0, 0));
        assert_eq!(c.min(), Point::new(0, 0));
        assert_eq!(c.percentile(median()), Err(MetricsError::EmptyChannel));
    }
}

#[test]
fn first_counter_value_is_only_a_baseline() {
    let mut c = channel(Source::Counter, Some(Summary::histogram(1_000_000)));
    c.record_counter(1_000, 40);
    assert_eq!(c.reading(), 40);
    assert!(c.has_data());
    assert_eq!(c.last_write(), 1_000);
    assert_eq!(c.max(), Point::new(0, 0));
    assert_eq!(c.min(), Point::new(0, 0));
    assert_eq!(c.percentile(median()), Err(MetricsError::EmptyChannel));
}

#[test]
fn second_counter_value_records_one_rate() {
    let mut c = channel(Source::Counter, Some(Summary::histogram(1_000_000)));
    c.record_counter(1_000, 40);
    c.record_counter(2_001_000, 46);
    assert_eq!(c.reading(), 46);
    // 6 events in 2 ms: 3000 per second
    assert_eq!(c.max(), Point::new(3_000, 2_001_000));
    assert_eq!(c.min(), Point::new(3_000, 2_001_000));
    assert_eq!(c.percentile(Percentile::new(1).unwrap()), Ok(3_000));
    assert_eq!(c.percentile(Percentile::new(999_999).unwrap()), Ok(3_000));
}

#[test]
fn counter_that_wraps_is_read_by_wrapping_distance() {
    let mut c = channel(Source::Counter, Some(Summary::histogram(u64::MAX)));
    c.record_counter(1_000_000_000, u64::MAX - 9);
    c.record_counter(2_000_000_000, 10);
    // the counter went from MAX - 9 over zero to 10: twenty events in a second
    assert_eq!(c.reading(), 10);
    assert_eq!(c.max(), Point::new(20, 2_000_000_000));
    assert_eq!(c.percentile(median()), Ok(20));
}

#[test]
fn counter_time_that_runs_backwards_wraps_too() {
    let mut c = channel(Source::Counter, None);
    c.record_counter(10, 100);
    c.record_counter(9, 200);
    // elapsed is 2^64 - 1 nanoseconds, so the rate rounds down to zero
    assert_eq!(c.reading(), 200);
    assert_eq!(c.max(), Point::new(100 * 1_000_000_000 / u64::MAX, 9));
    assert_eq!(c.last_write(), 9);
}

#[test]
fn counter_with_no_time_elapsed_saturates_the_rate() {
    let mut c = channel(Source::Counter, Some(Summary::histogram(u64::MAX)));
    c.record_counter(7, 1);
    c.record_counter(7, 2);
    assert_eq!(c.max(), Point::new(u64::MAX, 7));
    c.record_counter(7, 2);
    assert_eq!(c.min(), Point::new(0, 7));
}

#[test]
fn delta_adds_to_the_reading_and_records_the_rate() {
    let mut c = channel(Source::Counter, Some(Summary::histogram(1_000_000)));
    c.record_delta(1_000_000_000, 5);
    assert_eq!(c.reading(), 5);
    assert!(c.has_data());
    assert_eq!(c.percentile(median()), Err(MetricsError::EmptyChannel));
    c.record_delta(1_500_000_000, 50);
    assert_eq!(c.reading(), 55);
    // 50 events in half a second
    assert_eq!(c.max(), Point::new(100, 1_500_000_000));
    assert_eq!(c.min(), Point::new(100, 1_500_000_000));
    assert_eq!(c.percentile(median()), Ok(100));
    assert_eq!(c.last_write(), 1_500_000_000);
    c.record_delta(2_500_000_000, u64::MAX);
    assert_eq!(c.reading(), 54);
}

#[test]
fn distribution_adds_weighted_samples() {
    let mut c = channel(Source::Distribution, Some(Summary::histogram(1_000)));
    c.record_distribution(10, 42, 1);
    assert_eq!(c.reading(), 1);
    assert_eq!(c.percentile(median()), Ok(42));
    c.record_distribution(20, 7, 3);
    assert_eq!(c.reading(), 4);
    assert_eq!(c.last_write(), 20);
    assert_eq!(c.percentile(median()), Ok(7));
    assert_eq!(c.percentile(Percentile::new(750_000).unwrap()), Ok(7));
    assert_eq!(c.percentile(Percentile::new(750_001).unwrap()), Ok(42));
    // no extrema for distributions
    assert_eq!(c.max(), Point::new(0, 0));
    assert_eq!(c.min(), Point::new(0, 0));
    assert!(!c.has_data());
}

#[test]
fn gauge_overwrites_the_reading() {
    let mut c = channel(Source::Gauge, Some(Summary::histogram(1_000)));
    c.record_gauge(10, 7);
    assert_eq!(c.reading(), 7);
    c.record_gauge(20, 3);
    assert_eq!(c.reading(), 3);
    assert_eq!(c.last_write(), 20);
    assert_eq!(c.percentile(Percentile::new(500_000).unwrap()), Ok(3));
    assert_eq!(c.percentile(Percentile::new(500_001).unwrap()), Ok(7));
}

#[test]
fn first_gauge_value_is_both_extrema() {
    let mut c = channel(Source::Gauge, None);
    c.record_gauge(10, 1_000_000);
    assert_eq!(c.max(), Point::new(1_000_000, 10));
    assert_eq!(c.min(), Point::new(1_000_000, 10));
}

#[test]
fn later_gauge_values_replace_extrema_only_strictly() {
    let mut c = channel(Source::Gauge, None);
    c.record_gauge(10, 50);
    c.record_gauge(20, 50);
    assert_eq!(c.max(), Point::new(50, 10));
    assert_eq!(c.min(), Point::new(50, 10));
    c.record_gauge(30, 51);
    assert_eq!(c.max(), Point::new(51, 30));
    assert_eq!(c.min(), Point::new(50, 10));
    c.record_gauge(40, 49);
    assert_eq!(c.max(), Point::new(51, 30));
    assert_eq!(c.min(), Point::new(49, 40));
    c.record_gauge(50, 50);
    assert_eq!(c.max(), Point::new(51, 30));
    assert_eq!(c.min(), Point::new(49, 40));
}

#[test]
fn observation_at_time_zero_leaves_the_extrema_unset() {
    let mut c = channel(Source::Gauge, None);
    c.record_gauge(0, 50);
    assert_eq!(c.max(), Point::new(50, 0));
    // the trackers still count as unset, so a smaller value becomes the maximum
    c.record_gauge(5, 3);
    assert_eq!(c.max(), Point::new(3, 5));
    assert_eq!(c.min(), Point::new(3, 5));
}

#[test]
fn increment_tallies_and_records_the_magnitude() {
    let mut c = channel(Source::Counter, Some(Summary::histogram(1_000)));
    c.record_increment(10, 4);
    c.record_increment(20, 6);
    assert_eq!(c.reading(), 10);
    assert_eq!(c.last_write(), 20);
    assert!(!c.has_data());
    assert_eq!(c.percentile(Percentile::new(500_000).unwrap()), Ok(4));
    assert_eq!(c.percentile(Percentile::new(500_001).unwrap()), Ok(6));
    assert_eq!(c.max(), Point::new(0, 0));
    c.record_increment(30, u64::MAX);
    assert_eq!(c.reading(), 9);
}

#[test]
fn time_interval_counts_events_and_tracks_durations() {
    let mut c = channel(Source::TimeInterval, Some(Summary::histogram(1_000)));
    c.record_time_interval(100, 130);
    c.record_time_interval(200, 210);
    c.record_time_interval(300, 350);
    assert_eq!(c.reading(), 3);
    assert_eq!(c.max(), Point::new(50, 300));
    assert_eq!(c.min(), Point::new(10, 200));
    assert_eq!(c.percentile(median()), Ok(30));
    // time intervals do not stamp the channel
    assert_eq!(c.last_write(), 500);
}

#[test]
fn time_interval_that_stops_before_it_starts_wraps() {
    let mut c = channel(Source::TimeInterval, None);
    c.record_time_interval(10, 9);
    assert_eq!(c.reading(), 1);
    assert_eq!(c.max(), Point::new(u64::MAX, 10));
}

#[test]
fn latch_clears_window_but_keeps_reading() {
    let mut c = channel(Source::Counter, Some(Summary::histogram(1_000_000)));
    c.record_counter(1_000_000_000, 100);
    c.record_counter(2_000_000_000, 300);
    c.latch();
    assert_eq!(c.reading(), 300);
    assert!(c.has_data());
    assert_eq!(c.last_write(), 2_000_000_000);
    assert_eq!(c.max(), Point::new(0, 0));
    assert_eq!(c.min(), Point::new(0, 0));
    assert_eq!(c.percentile(median()), Err(MetricsError::EmptyChannel));
    // the baseline survives: the next value records a rate
    c.record_counter(3_000_000_000, 350);
    assert_eq!(c.reading(), 350);
    assert_eq!(c.max(), Point::new(50, 3_000_000_000));
}

#[test]
fn zero_resets_reading_and_baseline_too() {
    let mut c = channel(Source::Counter, Some(Summary::histogram(1_000_000)));
    c.add_output(Output::Reading);
    c.record_counter(1_000_000_000, 100);
    c.record_counter(2_000_000_000, 300);
    c.zero_at(77);
    assert_eq!(c.reading(), 0);
    assert!(!c.has_data());
    assert_eq!(c.last_write(), 77);
    assert_eq!(c.max(), Point::new(0, 0));
    assert_eq!(c.min(), Point::new(0, 0));
    assert_eq!(c.percentile(median()), Err(MetricsError::EmptyChannel));
    // outputs stay registered
    assert_eq!(c.hash_map(), vec![(Output::Reading, 0)]);
    // the next value is a baseline again
    c.record_counter(3_000_000_000, 350);
    assert_eq!(c.reading(), 350);
    assert_eq!(c.max(), Point::new(0, 0));
}

#[test]
fn zero_reads_the_clock() {
    let mut c = channel(Source::Gauge, Some(Summary::histogram(10)));
    c.record_gauge(10, 7);
    c.zero();
    assert_eq!(c.reading(), 0);
    assert!(!c.has_data());
    assert_eq!(c.max(), Point::new(0, 0));
    assert_eq!(c.percentile(median()), Err(MetricsError::EmptyChannel));
}

#[test]
fn percentile_without_histogram_is_no_summary() {
    let mut c = channel(Source::Distribution, None);
    assert_eq!(c.percentile(median()), Err(MetricsError::NoSummary));
    c.record_distribution(1, 42, 1);
    assert_eq!(c.percentile(median()), Err(MetricsError::NoSummary));
    assert_eq!(c.reading(), 1);
}

#[test]
fn percentile_of_empty_histogram_is_empty_channel() {
    let c = channel(Source::Distribution, Some(Summary::histogram(100)));
    assert_eq!(c.percentile(median()), Err(MetricsError::EmptyChannel));
}

#[test]
fn percentile_after_one_sample_is_that_sample() {
    let mut c = channel(Source::Distribution, Some(Summary::histogram(100)));
    c.record_distribution(5, 42, 1);
    assert_eq!(c.percentile(median()), Ok(42));
}

#[test]
fn reading_output_round_trip() {
    let mut c = channel(Source::Gauge, None);
    c.add_output(Output::Reading);
    c.record_gauge(10, 7);
    assert_eq!(
        c.readings(),
        vec![Reading::new("requests".to_string(), Output::Reading, 7)]
    );
    let readings = c.readings();
    assert_eq!(readings[0].label(), "requests");
    assert_eq!(readings[0].output(), Output::Reading);
    assert_eq!(readings[0].value(), 7);
    c.delete_output(Output::Reading);
    assert_eq!(c.readings(), vec![]);
    assert_eq!(c.hash_map(), vec![]);
}

#[test]
fn outputs_are_a_set() {
    let mut c = channel(Source::Gauge, None);
    c.add_output(Output::Reading);
    c.add_output(Output::MaxPointTime);
    c.add_output(Output::Reading);
    c.record_gauge(10, 7);
    assert_eq!(
        c.hash_map(),
        vec![(Output::Reading, 7), (Output::MaxPointTime, 10)]
    );
    c.delete_output(Output::MinPointTime);
    assert_eq!(c.hash_map().len(), 2);
    c.delete_output(Output::Reading);
    assert_eq!(c.hash_map(), vec![(Output::MaxPointTime, 10)]);
    c.delete_output(Output::Reading);
    assert_eq!(c.hash_map(), vec![(Output::MaxPointTime, 10)]);
}

#[test]
fn outputs_without_a_value_are_left_out() {
    let p = Percentile::new(900_000).unwrap();
    let mut c = channel(Source::Gauge, Some(Summary::histogram(100)));
    c.add_output(Output::MaxPointTime);
    c.add_output(Output::Percentile(p));
    c.add_output(Output::MinPointTime);
    c.add_output(Output::Reading);
    assert_eq!(c.hash_map(), vec![(Output::Reading, 0)]);
    c.record_gauge(10, 7);
    c.record_gauge(20, 3);
    assert_eq!(
        c.hash_map(),
        vec![
            (Output::MaxPointTime, 10),
            (Output::Percentile(p), 7),
            (Output::MinPointTime, 20),
            (Output::Reading, 3),
        ]
    );
    assert_eq!(
        c.readings(),
        vec![
            Reading::new("requests".to_string(), Output::MaxPointTime, 10),
            Reading::new("requests".to_string(), Output::Percentile(p), 7),
            Reading::new("requests".to_string(), Output::MinPointTime, 20),
            Reading::new("requests".to_string(), Output::Reading, 3),
        ]
    );
    assert_eq!(c.value(Output::MaxPointTime), Some(10));
    c.latch();
    assert_eq!(c.hash_map(), vec![(Output::Reading, 3)]);
    assert_eq!(c.value(Output::MaxPointTime), None);
    assert_eq!(c.value(Output::Percentile(p)), None);
}

#[test]
fn percentile_outputs_of_a_channel_without_histogram_are_left_out() {
    let mut c = channel(Source::Gauge, None);
    c.add_output(Output::Percentile(median()));
    c.record_gauge(10, 7);
    assert_eq!(c.readings(), vec![]);
}

#[test]
fn minimum_time_is_reported_once_the_maximum_is_set() {
    let mut c = channel(Source::Gauge, None);
    c.add_output(Output::MinPointTime);
    c.record_gauge(10, 5);
    // a greater value at time zero: the maximum moves there, the minimum stays
    c.record_gauge(0, 9);
    assert_eq!(c.max(), Point::new(9, 0));
    assert_eq!(c.min(), Point::new(5, 10));
    assert_eq!(c.hash_map(), vec![]);
}

#[test]
fn channels_are_equal_by_name() {
    let a = channel(Source::Gauge, None);
    let mut b = channel(Source::Counter, Some(Summary::histogram(5)));
    b.record_counter(1, 1);
    let other: Channel<u64> = Channel::new_at(
        ChannelStatistic::from_parts("errors", None, Source::Gauge, Some("per second")),
        None,
        500,
    );
    assert_eq!(other.statistic().unit(), Some("per second"));
    assert_eq!(other.statistic().description(), None);
    assert!(a == b);
    assert!(a != other);
}

#[test]
fn narrow_counts_are_widened_for_the_reading() {
    let statistic = ChannelStatistic::from_parts("sizes", None, Source::Distribution, None);
    let mut c: Channel<u8> = Channel::new_at(statistic, Some(Summary::histogram(1_000)), 0);
    c.record_distribution(1, 10, 200);
    c.record_distribution(2, 10, 200);
    c.record_distribution(3, 20, 255);
    // the reading is not bounded by the width of the counts
    assert_eq!(c.reading(), 655);
    // the histogram is: 255 at 10 (saturated), 255 at 20
    assert_eq!(c.percentile(Percentile::new(500_000).unwrap()), Ok(10));
    assert_eq!(c.percentile(Percentile::new(500_001).unwrap()), Ok(20));
}

#[test]
fn narrow_increments_record_their_magnitude() {
    let statistic = ChannelStatistic::from_parts("bytes", None, Source::Counter, None);
    let mut c: Channel<u16> = Channel::new_at(statistic, Some(Summary::histogram(100_000)), 0);
    c.record_increment(1, 65_535);
    c.record_increment(2, 1);
    assert_eq!(c.reading(), 65_536);
    assert_eq!(c.percentile(Percentile::new(500_000).unwrap()), Ok(1));
    assert_eq!(c.percentile(Percentile::new(500_001).unwrap()), Ok(65_535));
}

#[test]
fn copy_of_a_copy_holds_the_same_descriptor() {
    let first = ChannelStatistic::from_parts(
        "latency",
        Some("time to answer"),
        Source::TimeInterval,
        Some("nanoseconds"),
    );
    let second = ChannelStatistic::new(&first);
    assert_eq!(second.name(), "latency");
    assert_eq!(second.description(), Some("time to answer"));
    assert_eq!(second.source(), Source::TimeInterval);
    assert_eq!(second.unit(), Some("nanoseconds"));
    assert!(first.same_name(&second));
}

#[test]
fn new_takes_kind_and_name_from_the_statistic() {
    let mut c: Channel<u64> = Channel::new(
        &Named {
            name: "hits",
            source: Source::Counter,
        },
        Some(Summary::histogram(1_000)),
    );
    assert_eq!(c.statistic().name(), "hits");
    assert_eq!(c.statistic().source(), Source::Counter);
    assert_eq!(c.statistic().description(), Some("a test metric"));
    assert_eq!(c.statistic().unit(), None);
    // the kind decides which recording is taken
    c.record_gauge(1, 5);
    assert_eq!(c.reading(), 0);
    c.record_counter(2, 5);
    assert_eq!(c.reading(), 5);
    let copy = ChannelStatistic::from_parts("cpu", None, Source::Gauge, None);
    let mut g: Channel<u8> = Channel::new(&copy, None);
    g.record_counter(1, 5);
    assert_eq!(g.reading(), 0);
    g.record_gauge(2, 5);
    assert_eq!(g.reading(), 5);
    assert_eq!(g.statistic().name(), "cpu");
}

#[test]
fn percentile_at_millionths() {
    let mut c = channel(Source::Distribution, Some(Summary::histogram(1_000)));
    assert_eq!(c.percentile_at(500_000), Err(MetricsError::EmptyChannel));
    c.record_distribution(1, 10, 1);
    c.record_distribution(2, 20, 1);
    assert_eq!(c.percentile_at(1), Ok(10));
    assert_eq!(c.percentile_at(500_000), Ok(10));
    assert_eq!(c.percentile_at(500_001), Ok(20));
    assert_eq!(c.percentile_at(999_999), Ok(20));
}

#[test]
fn percentile_at_millionths_that_are_no_percentile() {
    let mut with = channel(Source::Distribution, Some(Summary::histogram(1_000)));
    with.record_distribution(1, 10, 1);
    assert_eq!(with.percentile_at(0), Err(MetricsError::EmptyChannel));
    assert_eq!(with.percentile_at(1_000_000), Err(MetricsError::EmptyChannel));
    assert_eq!(with.percentile_at(u32::MAX), Err(MetricsError::EmptyChannel));
    let mut without = channel(Source::Distribution, None);
    without.record_distribution(1, 10, 1);
    assert_eq!(without.percentile_at(0), Err(MetricsError::NoSummary));
    assert_eq!(without.percentile_at(1_000_000), Err(MetricsError::NoSummary));
    assert_eq!(without.percentile_at(500_000), Err(MetricsError::NoSummary));
}
