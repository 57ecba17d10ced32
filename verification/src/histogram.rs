use crate::count::Count;
use vstd::prelude::*;

verus! {

/// A percentile, in millionths of the population: `500_000` is the median.
/// Only values strictly between the minimum (0) and the maximum (one
/// million) exist.
#[derive(Clone, Copy, Debug, PartialEq, Eq, Structural, Hash)]
pub struct Percentile {
    ppm: u32,
}

impl Percentile {
    #[verifier::type_invariant]
    pub open spec fn wf(self) -> bool {
        0 < self.spec_ppm() < 1_000_000
    }

    pub closed spec fn spec_ppm(&self) -> u32 {
        self.ppm
    }

    /// The percentile at `ppm` millionths.
    pub closed spec fn at(ppm: u32) -> Percentile {
        Percentile { ppm }
    }

    /// The percentile at `ppm` millionths, if that lies strictly between 0
    /// and one million.
    pub fn new(ppm: u32) -> (p: Option<Percentile>)
        ensures
            p == if 0 < ppm < 1_000_000 {
                Some(Percentile::at(ppm))
            } else {
                None
            },
            Percentile::at(ppm).spec_ppm() == ppm,
            p matches Some(q) ==> q.wf(),
    {
        if 0 < ppm && ppm < 1_000_000 {
            Some(Percentile { ppm })
        } else {
            None
        }
    }

    #[verifier::when_used_as_spec(spec_ppm)]
    pub fn ppm(&self) -> (ppm: u32)
        ensures
            ppm == self.spec_ppm(),
            0 < ppm < 1_000_000,
    {
        proof {
            use_type_invariant(self);
        }
        self.ppm
    }
}

/// What a histogram holds: for each value the weight recorded at it, the
/// largest value it tells apart, and the largest weight it can hold at one
/// value.
pub struct HistogramView {
    pub max: u64,
    pub limit: nat,
    pub counts: Map<u64, nat>,
}

impl HistogramView {
    pub open spec fn empty(max: u64, limit: nat) -> HistogramView {
        HistogramView { max, limit, counts: Map::empty() }
    }

    /// The weight recorded at `value`.
    pub open spec fn count(self, value: u64) -> nat {
        if self.counts.dom().contains(value) {
            self.counts[value]
        } else {
            0
        }
    }

    /// The weight recorded at values strictly below `bound`.
    pub open spec fn weight_below(self, bound: nat) -> nat
        decreases bound,
    {
        if bound == 0 {
            0
        } else {
            self.count((bound - 1) as u64) + self.weight_below((bound - 1) as nat)
        }
    }

    /// The weight of all samples.
    pub open spec fn total(self) -> nat {
        self.weight_below(0x1_0000_0000_0000_0000)
    }

    /// Where a sample of `value` is recorded: values above `max` go to
    /// `max`.
    pub open spec fn slot(self, value: u64) -> u64 {
        if value > self.max {
            self.max
        } else {
            value
        }
    }

    /// The histogram after `weight` samples of `value` have been added.
    /// The weight at one value saturates at `limit`.
    pub open spec fn incremented(self, value: u64, weight: nat) -> HistogramView {
        let at = self.slot(value);
        if weight == 0 {
            self
        } else {
            HistogramView {
                counts: self.counts.insert(
                    at,
                    crate::count::saturated(self.count(at) + weight, self.limit),
                ),
                ..self
            }
        }
    }

    pub open spec fn cleared(self) -> HistogramView {
        HistogramView::empty(self.max, self.limit)
    }

    /// How many samples, counted from the smallest, the percentile `p`
    /// asks for: the given share of the total weight, rounded up.
    pub open spec fn rank(self, p: Percentile) -> nat {
        ((p.spec_ppm() * self.total() + 999_999) / 1_000_000) as nat
    }

    /// Whether `value` is where the cumulative weight first reaches the
    /// rank of `p`.
    pub open spec fn is_quantile(self, p: Percentile, value: u64) -> bool {
        self.weight_below(value as nat) < self.rank(p) <= self.weight_below((value + 1) as nat)
    }

    /// The value at percentile `p`: none while the histogram is empty, else
    /// the smallest value at which the cumulative weight reaches the rank.
    pub open spec fn quantile(self, p: Percentile) -> Option<u64> {
        if self.total() == 0 {
            None
        } else {
            Some(choose|value: u64| self.is_quantile(p, value))
        }
    }
}

/// How a channel's histogram is to be built.
#[derive(Clone, Copy, Debug, PartialEq, Eq, Structural, Hash)]
pub struct Summary {
    pub max: u64,
}

struct Bucket<C: Count> {
    value: u64,
    count: C,
}

/// Weighted samples of `u64` values, kept exactly: one bucket for each
/// distinct value, in ascending order. The weight at each value is counted
/// in `C`.
pub struct Histogram<C: Count> {
    max: u64,
    buckets: Vec<Bucket<C>>,
}

spec fn ascending<C: Count>(buckets: Seq<Bucket<C>>) -> bool {
    forall|i: int, j: int| 0 <= i < j < buckets.len() ==> buckets[i].value < buckets[j].value
}

spec fn holds<C: Count>(buckets: Seq<Bucket<C>>, value: u64) -> bool {
    exists|i: int| 0 <= i < buckets.len() && (#[trigger] buckets[i]).value == value
}

spec fn position<C: Count>(buckets: Seq<Bucket<C>>, value: u64) -> int {
    choose|i: int| 0 <= i < buckets.len() && (#[trigger] buckets[i]).value == value
}

spec fn counts_of<C: Count>(buckets: Seq<Bucket<C>>) -> Map<u64, nat> {
    Map::new(
        |value: u64| holds(buckets, value),
        |value: u64| buckets[position(buckets, value)].count.number(),
    )
}

spec fn prefix_weight<C: Count>(buckets: Seq<Bucket<C>>, n: int) -> nat
    decreases n,
{
    if n <= 0 {
        0
    } else {
        prefix_weight(buckets, n - 1) + buckets[n - 1].count.number()
    }
}

proof fn lemma_position<C: Count>(buckets: Seq<Bucket<C>>, i: int)
    requires
        ascending(buckets),
        0 <= i < buckets.len(),
    ensures
        holds(buckets, buckets[i].value),
        position(buckets, buckets[i].value) == i,
{
    let j = position(buckets, buckets[i].value);
    assert(0 <= j < buckets.len() && buckets[j].value == buckets[i].value);
}

proof fn lemma_weight_gap(h: HistogramView, lo: nat, hi: nat)
    requires
        lo <= hi <= 0x1_0000_0000_0000_0000,
        forall|v: u64| lo <= v < hi ==> #[trigger] h.count(v) == 0,
    ensures
        h.weight_below(hi) == h.weight_below(lo),
    decreases hi - lo,
{
    if lo < hi {
        lemma_weight_gap(h, lo, (hi - 1) as nat);
        assert(h.count((hi - 1) as u64) == 0);
    }
}

proof fn lemma_weight_monotone(h: HistogramView, lo: nat, hi: nat)
    requires
        lo <= hi,
    ensures
        h.weight_below(lo) <= h.weight_below(hi),
    decreases hi - lo,
{
    if lo < hi {
        lemma_weight_monotone(h, lo, (hi - 1) as nat);
    }
}

/// The cumulative weight below a bound that separates the first `n`
/// buckets from the others is the weight of those `n` buckets.
proof fn lemma_weight_prefix<C: Count>(
    buckets: Seq<Bucket<C>>,
    max: u64,
    limit: nat,
    n: int,
    bound: nat,
)
    requires
        ascending(buckets),
        0 <= n <= buckets.len(),
        bound <= 0x1_0000_0000_0000_0000,
        n > 0 ==> buckets[n - 1].value < bound,
        n < buckets.len() ==> bound <= buckets[n].value,
    ensures
        (HistogramView { max, limit, counts: counts_of(buckets) }).weight_below(bound)
            == prefix_weight(buckets, n),
    decreases n,
{
    let h = HistogramView { max, limit, counts: counts_of(buckets) };
    if n == 0 {
        assert forall|v: u64| 0 <= v < bound implies #[trigger] h.count(v) == 0 by {
            if holds(buckets, v) {
                let j = position(buckets, v);
                assert(buckets[0].value <= buckets[j].value);
            }
        }
        lemma_weight_gap(h, 0, bound);
    } else {
        let b = buckets[n - 1].value;
        lemma_weight_prefix(buckets, max, limit, n - 1, b as nat);
        lemma_position(buckets, n - 1);
        assert(h.count(b) == buckets[n - 1].count.number());
        assert(h.weight_below((b + 1) as nat) == h.count(b) + h.weight_below(b as nat));
        assert forall|v: u64| b + 1 <= v < bound implies #[trigger] h.count(v) == 0 by {
            if holds(buckets, v) {
                let j = position(buckets, v);
                if j < n - 1 {
                    assert(buckets[j].value < buckets[n - 1].value);
                } else if j > n - 1 {
                    assert(buckets[n].value <= buckets[j].value);
                }
            }
        }
        lemma_weight_gap(h, (b + 1) as nat, bound);
    }
}

proof fn lemma_counts_after_update<C: Count>(before: Seq<Bucket<C>>, i: int, count: C)
    requires
        ascending(before),
        0 <= i < before.len(),
    ensures
        ascending(before.update(i, Bucket { value: before[i].value, count })),
        counts_of(before.update(i, Bucket { value: before[i].value, count })) == counts_of(
            before,
        ).insert(before[i].value, count.number()),
{
    let at = before[i].value;
    let after = before.update(i, Bucket { value: at, count });
    assert(ascending(after));
    assert forall|k: u64| holds(after, k) <==> holds(before, k) || k == at by {
        if holds(after, k) {
            let j = position(after, k);
            assert(before[j].value == k);
        }
        if holds(before, k) {
            let j = position(before, k);
            assert(after[j].value == k);
        }
        if k == at {
            assert(after[i].value == k);
        }
    }
    assert forall|k: u64| holds(after, k) implies #[trigger] counts_of(after)[k] == counts_of(
        before,
    ).insert(at, count.number())[k] by {
        let j = position(after, k);
        lemma_position(after, j);
        lemma_position(before, j);
    }
    assert(counts_of(after) =~= counts_of(before).insert(at, count.number()));
}

proof fn lemma_counts_after_insert<C: Count>(
    before: Seq<Bucket<C>>,
    i: int,
    at: u64,
    count: C,
)
    requires
        ascending(before),
        0 <= i <= before.len(),
        forall|k: int| 0 <= k < i ==> (#[trigger] before[k]).value < at,
        i < before.len() ==> at < before[i].value,
    ensures
        !holds(before, at),
        ascending(before.insert(i, Bucket { value: at, count })),
        counts_of(before.insert(i, Bucket { value: at, count })) == counts_of(before).insert(
            at,
            count.number(),
        ),
{
    let after = before.insert(i, Bucket { value: at, count });
    assert forall|k: int| i <= k < before.len() implies at < (#[trigger] before[k]).value by {
        if i < k {
            assert(before[i].value < before[k].value);
        }
    }
    assert(!holds(before, at));
    assert forall|a: int, b: int| 0 <= a < b < after.len() implies after[a].value
        < after[b].value by {
        let x = if a < i { before[a] } else if a == i { after[i] } else { before[a - 1] };
        let y = if b < i { before[b] } else if b == i { after[i] } else { before[b - 1] };
        assert(after[a] == x);
        assert(after[b] == y);
    }
    assert(ascending(after));
    assert forall|k: u64| holds(after, k) <==> holds(before, k) || k == at by {
        if holds(after, k) {
            let j = position(after, k);
            if j < i {
                assert(before[j].value == k);
            } else if j > i {
                assert(before[j - 1].value == k);
            }
        }
        if holds(before, k) {
            let j = position(before, k);
            if j < i {
                assert(after[j].value == k);
            } else {
                assert(after[j + 1].value == k);
            }
        }
        if k == at {
            assert(after[i].value == k);
        }
    }
    assert forall|k: u64| holds(after, k) implies #[trigger] counts_of(after)[k] == counts_of(
        before,
    ).insert(at, count.number())[k] by {
        let j = position(after, k);
        lemma_position(after, j);
        if j < i {
            assert(after[j] == before[j]);
            lemma_position(before, j);
        } else if j > i {
            assert(after[j] == before[j - 1]);
            lemma_position(before, j - 1);
        }
    }
    assert(counts_of(after) =~= counts_of(before).insert(at, count.number()));
}

/// At most one value is the quantile.
proof fn lemma_quantile_unique(h: HistogramView, p: Percentile, value: u64)
    requires
        h.total() > 0,
        h.is_quantile(p, value),
    ensures
        h.quantile(p) == Some(value),
{
    let other = choose|v: u64| h.is_quantile(p, v);
    assert(h.is_quantile(p, other));
    if other < value {
        lemma_weight_monotone(h, (other + 1) as nat, value as nat);
    } else if value < other {
        lemma_weight_monotone(h, (value + 1) as nat, other as nat);
    }
}

/// The rank of a percentile, computed from the quotient and the remainder
/// of the total by one million.
proof fn lemma_rank_split(ppm: nat, total: nat)
    requires
        0 < ppm < 1_000_000,
        0 < total,
    ensures
        ppm * (total / 1_000_000) <= total,
        ppm * (total % 1_000_000) <= 999_999_000_000,
        (ppm * total + 999_999) / 1_000_000 == ppm * (total / 1_000_000) + (ppm * (total
            % 1_000_000) + 999_999) / 1_000_000,
        1 <= (ppm * total + 999_999) / 1_000_000 <= total,
{
    let q = total / 1_000_000;
    let r = total % 1_000_000;
    assert(ppm * total == (ppm * q) * 1_000_000 + ppm * r) by (nonlinear_arith)
        requires
            total == q * 1_000_000 + r,
    ;
    assert(ppm * q <= 1_000_000 * q) by (nonlinear_arith)
        requires
            ppm < 1_000_000,
            0 <= q,
    ;
    assert(ppm * r <= 999_999 * 999_999) by (nonlinear_arith)
        requires
            0 < ppm < 1_000_000,
            0 <= r < 1_000_000,
    ;
    assert(1 <= ppm * total <= 999_999 * total) by (nonlinear_arith)
        requires
            0 < ppm < 1_000_000,
            0 < total,
    ;
}

impl<C: Count> View for Histogram<C> {
    type V = HistogramView;

    closed spec fn view(&self) -> HistogramView {
        HistogramView { max: self.max, limit: C::limit(), counts: counts_of(self.buckets@) }
    }
}

impl<C: Count> Histogram<C> {
    #[verifier::type_invariant]
    spec fn wf(self) -> bool {
        &&& ascending(self.buckets@)
        &&& forall|i: int|
            0 <= i < self.buckets.len() ==> 0 < (#[trigger] self.buckets[i]).count.number()
                && self.buckets[i].value <= self.max
    }

    /// An empty histogram that tells values up to `max` apart.
    pub fn new(max: u64) -> (h: Histogram<C>)
        ensures
            h@ == HistogramView::empty(max, C::limit()),
    {
        let h = Histogram { max, buckets: Vec::new() };
        assert(h@.counts =~= Map::empty());
        h
    }

    /// Forgets all samples.
    pub fn clear(&mut self)
        ensures
            final(self)@ == old(self)@.cleared(),
    {
        self.buckets = Vec::new();
        assert(self@.counts =~= Map::empty());
    }

    /// Adds `weight` samples of `value`.
    pub fn increment(&mut self, value: u64, weight: C)
        ensures
            final(self)@ == old(self)@.incremented(value, weight.number()),
    {
        proof {
            use_type_invariant(&*self);
        }
        if weight.into_u64() == 0 {
            return ;
        }
        let at: u64 = if value > self.max {
            self.max
        } else {
            value
        };
        let mut buckets: Vec<Bucket<C>> = Vec::new();
        std::mem::swap(&mut buckets, &mut self.buckets);
        let ghost before = buckets@;
        let mut i: usize = 0;
        while i < buckets.len() && buckets[i].value < at
            invariant
                0 <= i <= buckets.len(),
                buckets@ == before,
                forall|k: int| 0 <= k < i ==> (#[trigger] before[k]).value < at,
            decreases buckets.len() - i,
        {
            i += 1;
        }
        if i < buckets.len() && buckets[i].value == at {
            let count = buckets[i].count.add_saturating(weight);
            proof {
                weight.number_is_bounded();
                lemma_position(before, i as int);
                lemma_counts_after_update(before, i as int, count);
            }
            buckets.set(i, Bucket { value: at, count });
        } else {
            proof {
                weight.number_is_bounded();
                lemma_counts_after_insert(before, i as int, at, weight);
            }
            buckets.insert(i, Bucket { value: at, count: weight });
        }
        self.buckets = buckets;
    }

    /// The value at percentile `p`, or nothing while the histogram is empty.
    pub fn percentile(&self, p: Percentile) -> (r: Option<u64>)
        ensures
            r == self@.quantile(p),
    {
        proof {
            use_type_invariant(self);
            use_type_invariant(&p);
        }
        let n: usize = self.buckets.len();
        let mut total: u128 = 0;
        let mut i: usize = 0;
        while i < n
            invariant
                i <= n,
                n == self.buckets.len(),
                total == prefix_weight(self.buckets@, i as int),
                total <= i * 0xFFFF_FFFF_FFFF_FFFF,
            decreases n - i,
        {
            total = total + self.buckets[i].count.into_u64() as u128;
            i += 1;
        }
        proof {
            lemma_weight_prefix(
                self.buckets@,
                self.max,
                C::limit(),
                n as int,
                0x1_0000_0000_0000_0000,
            );
        }
        if total == 0 {
            return None;
        }
        let ppm: u128 = p.ppm() as u128;
        proof {
            lemma_rank_split(ppm as nat, total as nat);
        }
        let whole: u128 = ppm * (total / 1_000_000);
        let part: u128 = (ppm * (total % 1_000_000) + 999_999) / 1_000_000;
        let rank: u128 = whole + part;
        let mut seen: u128 = 0;
        let mut j: usize = 0;
        while j < n
            invariant
                j <= n,
                n == self.buckets.len(),
                ascending(self.buckets@),
                seen == prefix_weight(self.buckets@, j as int),
                seen <= j * 0xFFFF_FFFF_FFFF_FFFF,
                seen < rank,
                rank == self@.rank(p),
                self@.total() > 0,
            decreases n - j,
        {
            let value: u64 = self.buckets[j].value;
            let next: u128 = seen + self.buckets[j].count.into_u64() as u128;
            if next >= rank {
                proof {
                    lemma_weight_prefix(
                        self.buckets@,
                        self.max,
                        C::limit(),
                        j as int,
                        value as nat,
                    );
                    lemma_weight_prefix(
                        self.buckets@,
                        self.max,
                        C::limit(),
                        j + 1,
                        (value + 1) as nat,
                    );
                    lemma_quantile_unique(self@, p, value);
                }
                return Some(value);
            }
            seen = next;
            j += 1;
        }
        None
    }
}

impl Summary {
    /// A histogram that tells values up to `max` apart.
    pub fn histogram(max: u64) -> (s: Summary)
        ensures
            s.max == max,
    {
        Summary { max }
    }

    pub fn build_histogram<C: Count>(&self) -> (h: Histogram<C>)
        ensures
            h@ == HistogramView::empty(self.max, C::limit()),
    {
        Histogram::new(self.max)
    }
}

proof fn lemma_weight_after_insert(h: HistogramView, at: u64, count: nat, bound: nat)
    requires
        bound <= 0x1_0000_0000_0000_0000,
    ensures
        (HistogramView { counts: h.counts.insert(at, count), ..h }).weight_below(bound) + (if at
            < bound {
            h.count(at)
        } else {
            0
        }) == h.weight_below(bound) + (if at < bound {
            count
        } else {
            0
        }),
    decreases bound,
{
    if bound > 0 {
        lemma_weight_after_insert(h, at, count, (bound - 1) as nat);
    }
}

proof fn lemma_crossing(h: HistogramView, rank: nat, lo: nat, hi: nat) -> (value: u64)
    requires
        lo <= hi <= 0x1_0000_0000_0000_0000,
        h.weight_below(lo) < rank <= h.weight_below(hi),
    ensures
        lo <= value < hi,
        h.weight_below(value as nat) < rank <= h.weight_below((value + 1) as nat),
    decreases hi - lo,
{
    if h.weight_below((hi - 1) as nat) < rank {
        (hi - 1) as u64
    } else {
        lemma_crossing(h, rank, lo, (hi - 1) as nat)
    }
}

/// An empty histogram holds no weight, so it has no quantile.
pub proof fn empty_has_no_weight(max: u64, limit: nat)
    ensures
        HistogramView::empty(max, limit).total() == 0,
{
    lemma_weight_gap(HistogramView::empty(max, limit), 0, 0x1_0000_0000_0000_0000);
}

/// An increment changes the weight at one value only, and the total by as
/// much as the weight there. A positive weight leaves the histogram
/// non-empty.
pub proof fn increment_adds_weight(h: HistogramView, value: u64, weight: nat)
    ensures
        forall|other: u64|
            other != h.slot(value) ==> #[trigger] h.incremented(value, weight).count(other)
                == h.count(other),
        weight > 0 ==> h.incremented(value, weight).count(h.slot(value))
            == crate::count::saturated(h.count(h.slot(value)) + weight, h.limit),
        h.incremented(value, weight).total() + h.count(h.slot(value)) == h.total()
            + h.incremented(value, weight).count(h.slot(value)),
        weight > 0 && h.limit > 0 ==> h.incremented(value, weight).total() > 0,
{
    if weight > 0 {
        let at = h.slot(value);
        let after = h.incremented(value, weight);
        lemma_weight_after_insert(h, at, after.count(at), 0x1_0000_0000_0000_0000);
        lemma_weight_monotone(after, (at + 1) as nat, 0x1_0000_0000_0000_0000);
        assert(after.weight_below((at + 1) as nat) >= after.count(at));
    }
}

/// A histogram that holds samples has a quantile for every percentile: the
/// value at which the cumulative weight first reaches the rank. Samples
/// were recorded at that value.
pub proof fn quantile_is_reached(h: HistogramView, p: Percentile)
    requires
        p.wf(),
        h.total() > 0,
    ensures
        1 <= h.rank(p) <= h.total(),
        h.quantile(p) matches Some(value) && h.is_quantile(p, value) && h.count(value) > 0,
{
    lemma_rank_split(p.spec_ppm() as nat, h.total());
    let value = lemma_crossing(h, h.rank(p), 0, 0x1_0000_0000_0000_0000);
    lemma_quantile_unique(h, p, value);
}

/// Where all samples have one value, that value is every quantile.
pub proof fn quantile_of_single_value(
    max: u64,
    limit: nat,
    value: u64,
    weight: nat,
    p: Percentile,
)
    requires
        p.wf(),
        weight > 0,
        limit > 0,
    ensures
        HistogramView::empty(max, limit).incremented(value, weight).total()
            == crate::count::saturated(weight, limit),
        HistogramView::empty(max, limit).incremented(value, weight).quantile(p) == Some(
            HistogramView::empty(max, limit).slot(value),
        ),
{
    let h = HistogramView::empty(max, limit).incremented(value, weight);
    let at = HistogramView::empty(max, limit).slot(value);
    empty_has_no_weight(max, limit);
    increment_adds_weight(HistogramView::empty(max, limit), value, weight);
    quantile_is_reached(h, p);
    let found = h.quantile(p)->Some_0;
    if found < at {
        lemma_weight_gap(h, 0, (found + 1) as nat);
    } else if found > at {
        lemma_weight_monotone(h, (at + 1) as nat, found as nat);
        lemma_weight_gap(h, 0, at as nat);
    }
}

} // verus!
