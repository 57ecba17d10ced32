use metrics::{Count, Histogram, Percentile, Summary};

fn at(ppm: u32) -> Percentile {
    Percentile::new(ppm).unwrap()
}

#[test]
fn percentile_range_is_open() {
    assert_eq!(Percentile::new(0), None);
    assert_eq!(Percentile::new(1_000_000), None);
    assert_eq!(Percentile::new(u32::MAX), None);
    assert_eq!(Percentile::new(1).unwrap().ppm(), 1);
    assert_eq!(Percentile::new(999_999).unwrap().ppm(), 999_999);
    assert_eq!(Percentile::new(500_000), Percentile::new(500_000));
}

#[test]
fn empty_histogram_has_no_percentile() {
    let h: Histogram<u64> = Histogram::new(100);
    assert_eq!(h.percentile(at(1)), None);
    assert_eq!(h.percentile(at(500_000)), None);
    assert_eq!(h.percentile(at(999_999)), None);
}

#[test]
fn summary_builds_an_empty_histogram() {
    let summary = Summary::histogram(100);
    assert_eq!(summary.max, 100);
    let mut h: Histogram<u64> = summary.build_histogram();
    assert_eq!(h.percentile(at(500_000)), None);
    h.increment(250, 1);
    assert_eq!(h.percentile(at(500_000)), Some(100));
}

#[test]
fn percentile_is_the_first_value_that_reaches_the_rank() {
    let mut h: Histogram<u64> = Histogram::new(1_000);
    // inserted out of order
    h.increment(30, 1);
    h.increment(10, 1);
    h.increment(40, 1);
    h.increment(20, 1);
    // ranks: 25% -> 1, 50% -> 2, 75% -> 3, above -> 4
    assert_eq!(h.percentile(at(1)), Some(10));
    assert_eq!(h.percentile(at(250_000)), Some(10));
    assert_eq!(h.percentile(at(250_001)), Some(20));
    assert_eq!(h.percentile(at(500_000)), Some(20));
    assert_eq!(h.percentile(at(500_001)), Some(30));
    assert_eq!(h.percentile(at(750_000)), Some(30));
    assert_eq!(h.percentile(at(750_001)), Some(40));
    assert_eq!(h.percentile(at(999_999)), Some(40));
}

#[test]
fn weights_count_as_repeated_samples() {
    let mut h: Histogram<u64> = Histogram::new(1_000);
    h.increment(5, 9);
    h.increment(500, 1);
    assert_eq!(h.percentile(at(900_000)), Some(5));
    assert_eq!(h.percentile(at(900_001)), Some(500));
    h.increment(5, 90);
    // 99 of 100 samples are 5
    assert_eq!(h.percentile(at(990_000)), Some(5));
    assert_eq!(h.percentile(at(990_001)), Some(500));
}

#[test]
fn zero_weight_adds_nothing() {
    let mut h: Histogram<u64> = Histogram::new(1_000);
    h.increment(5, 0);
    assert_eq!(h.percentile(at(500_000)), None);
    h.increment(7, 1);
    h.increment(5, 0);
    assert_eq!(h.percentile(at(1)), Some(7));
}

#[test]
fn values_above_the_maximum_are_recorded_at_the_maximum() {
    let mut h: Histogram<u64> = Histogram::new(100);
    h.increment(101, 1);
    h.increment(u64::MAX, 1);
    h.increment(100, 1);
    h.increment(99, 1);
    assert_eq!(h.percentile(at(250_000)), Some(99));
    assert_eq!(h.percentile(at(250_001)), Some(100));
    assert_eq!(h.percentile(at(999_999)), Some(100));
}

#[test]
fn weight_at_one_value_saturates() {
    let mut h: Histogram<u64> = Histogram::new(u64::MAX);
    h.increment(1, u64::MAX);
    h.increment(1, u64::MAX);
    h.increment(2, u64::MAX);
    // both values weigh u64::MAX now: the median is the first
    assert_eq!(h.percentile(at(500_000)), Some(1));
    assert_eq!(h.percentile(at(500_001)), Some(2));
}

#[test]
fn large_totals_do_not_overflow_the_rank() {
    let mut h: Histogram<u64> = Histogram::new(u64::MAX);
    h.increment(0, u64::MAX);
    h.increment(u64::MAX, u64::MAX);
    h.increment(7, u64::MAX);
    assert_eq!(h.percentile(at(333_333)), Some(0));
    assert_eq!(h.percentile(at(333_334)), Some(7));
    assert_eq!(h.percentile(at(666_666)), Some(7));
    assert_eq!(h.percentile(at(666_667)), Some(u64::MAX));
}

#[test]
fn clear_forgets_all_samples() {
    let mut h: Histogram<u64> = Histogram::new(100);
    h.increment(3, 2);
    h.increment(4, 2);
    h.clear();
    assert_eq!(h.percentile(at(500_000)), None);
    h.increment(250, 1);
    assert_eq!(h.percentile(at(500_000)), Some(100));
}

#[test]
fn narrow_counts_saturate_at_their_width() {
    let mut h: Histogram<u8> = Histogram::new(1_000);
    h.increment(5, 200);
    h.increment(5, 200);
    h.increment(9, 255);
    // 255 samples at each value
    assert_eq!(h.percentile(at(500_000)), Some(5));
    assert_eq!(h.percentile(at(500_001)), Some(9));
    let mut wide: Histogram<u16> = Histogram::new(1_000);
    wide.increment(5, 200);
    wide.increment(5, 200);
    wide.increment(9, 255);
    // 400 samples at 5, 255 at 9
    assert_eq!(wide.percentile(at(610_687)), Some(5));
    assert_eq!(wide.percentile(at(610_688)), Some(9));
}

#[test]
fn counts_convert_and_saturate() {
    assert_eq!(<u8 as Count>::one(), 1);
    assert_eq!(<u64 as Count>::one(), 1);
    assert_eq!(Count::into_u64(255u8), 255);
    assert_eq!(Count::into_u64(65_535u16), 65_535);
    assert_eq!(Count::into_u64(u32::MAX), 4_294_967_295);
    assert_eq!(Count::into_u64(u64::MAX), u64::MAX);
    assert_eq!(Count::add_saturating(250u8, 5), 255);
    assert_eq!(Count::add_saturating(250u8, 6), 255);
    assert_eq!(Count::add_saturating(1u16, 2), 3);
    assert_eq!(Count::add_saturating(u16::MAX, 1), u16::MAX);
    assert_eq!(Count::add_saturating(u32::MAX - 1, 1), u32::MAX);
    assert_eq!(Count::add_saturating(u64::MAX, u64::MAX), u64::MAX);
}
