//! The latency histogram of a run, kept by the `hdrhistogram` crate.
use vstd::arithmetic::power2::{lemma2_to64, lemma_pow2_pos, pow2};
use vstd::multiset::Multiset;
use vstd::prelude::*;

use crate::binary::{
    above, is_near, law_rounded_is_near, lemma_rounded_positive, lemma_times_whole,
    lemma_whole_bounds, lemma_quotient, number, product, quotient, rounded, scaled, whole_of,
    Binary, Number,
};
use crate::report::{LatencyBucket, LatencyHistogram};

verus! {

#[verifier::external_type_specification]
#[verifier::external_body]
pub struct ExCreationError(hdrhistogram::CreationError);

#[verifier::external_type_specification]
#[verifier::external_body]
pub struct ExRecordError(hdrhistogram::RecordError);

/// A histogram of the `hdrhistogram` crate with counts of 64 bits.
#[verifier::external_body]
pub struct Counts {
    inner: hdrhistogram::Histogram<u64>,
}

/// The values that a histogram has taken in.
pub uninterp spec fn recorded(h: Counts) -> Multiset<u64>;

/// The highest value that a histogram was made to track.
pub uninterp spec fn made_for(h: Counts) -> u64;

/// Where the range of a histogram ends: `top` doubled until it lies above `high`.
pub open spec fn range_end(top: nat, high: nat) -> nat
    decreases
            if top > high {
                0
            } else {
                high + 1 - top
            },
{
    if top == 0 || top > high {
        top
    } else {
        range_end(top * 2, high)
    }
}

/// How many neighbouring values share a count with `value`: one below `top`, and twice as many
/// with each doubling of `top`.
pub open spec fn width_at(value: nat, top: nat) -> nat
    decreases
            if top > value {
                0
            } else {
                value + 1 - top
            },
{
    if top == 0 || value < top {
        1
    } else {
        2 * width_at(value, top * 2)
    }
}

/// The lowest value that shares a count with `value` in a histogram that keeps three significant
/// digits, and so tells all values below 2048 apart.
pub open spec fn lowest_equivalent(value: nat) -> int {
    value - value % width_at(value, 2048)
}

/// The highest value that shares a count with `value` in such a histogram.
pub open spec fn highest_equivalent(value: nat) -> int {
    lowest_equivalent(value) + width_at(value, 2048) - 1
}

/// Whether a value shares a count with `low`, with `high` or with one between them.
pub open spec fn shares(low: nat, high: nat) -> spec_fn(u64) -> bool {
    |v: u64| lowest_equivalent(low) <= v <= highest_equivalent(high)
}

/// `Histogram::new_with_bounds` of `hdrhistogram`. Claimed of a histogram with a lowest value of
/// one and three significant digits: that it is made, is empty, and tracks values up to `high`.
#[verifier::external_body]
fn new_with_bounds(low: u64, high: u64, sigfig: u8) -> (r: Result<
    Counts,
    hdrhistogram::CreationError,
>)
    requires
        low == 1,
        high >= 2,
        sigfig == 3,
    ensures
        r is Ok,
        recorded(r->Ok_0) == Multiset::<u64>::empty(),
        made_for(r->Ok_0) == high,
{
    match hdrhistogram::Histogram::<u64>::new_with_bounds(low, high, sigfig) {
        Ok(inner) => Ok(Counts { inner }),
        Err(e) => Err(e),
    }
}

/// `Histogram::record` of `hdrhistogram`. Claimed: that a value within the range of the histogram
/// is taken in, that any other is refused and changes nothing, and that the range does not grow.
/// The range starts with 2048 values, each with a count of its own, and is doubled until it holds
/// the highest value to track.
#[verifier::external_body]
fn record(h: &mut Counts, value: u64) -> (r: Result<(), hdrhistogram::RecordError>)
    ensures
        r is Ok <==> value < range_end(2048, made_for(*old(h)) as nat),
        made_for(*final(h)) == made_for(*old(h)),
        recorded(*final(h)) == if r is Ok {
            recorded(*old(h)).insert(value)
        } else {
            recorded(*old(h))
        },
{
    h.inner.record(value)
}

/// `Histogram::count_between` of `hdrhistogram`. Claimed: that it counts the values taken in from
/// the lowest one that shares a count with `low` to the highest one that shares a count with
/// `high`, and stops at the highest number of 64 bits.
#[verifier::external_body]
fn count_between(h: &Counts, low: u64, high: u64) -> (r: u64)
    requires
        low < range_end(2048, made_for(*h) as nat),
    ensures
        ({
            let n = recorded(*h).filter(shares(low as nat, high as nat)).len();
            r == if n > u64::MAX {
                u64::MAX as nat
            } else {
                n
            }
        }),
{
    h.inner.count_between(low, high)
}

/// The highest latency that the histogram of a run is made to track, in microseconds.
pub const HIGHEST_US: u64 = 120_000_000;

/// A latency in microseconds: in milliseconds first, then a thousand times that, each rounded to
/// 53 binary digits.
pub open spec fn rounded_micros(ns: u64) -> Number {
    product(quotient(number(ns as nat), number(1_000_000)), number(1000))
}

/// A latency in whole microseconds, with one for anything shorter.
pub open spec fn whole_micros(ns: u64) -> u64 {
    let us = whole_of(rounded_micros(ns));
    if us < 1 {
        1
    } else if us > u64::MAX {
        u64::MAX
    } else {
        us as u64
    }
}

/// A latency in whole microseconds, with one for anything shorter.
pub fn micros(ns: u64) -> (r: u64)
    ensures
        r == whole_micros(ns),
{
    let ms: Binary = Binary::of(ns).over(Binary::of(1_000_000));
    let us: u64 = ms.times(Binary::of(1000)).whole();
    if us < 1 {
        1
    } else {
        us
    }
}

/// A latency of less than two to the 51st nanoseconds, which is 26 days, is so many microseconds
/// long: no more than go into it, and no fewer than leave one of them over. Anything shorter counts
/// as one.
pub proof fn law_micros_go_into_the_latency(ns: u64)
    requires
        ns < 0x8_0000_0000_0000,
    ensures
        ns >= 2000 ==> whole_micros(ns) * 1000 <= ns <= whole_micros(ns) * 1000 + 1000,
        ns < 2000 ==> whole_micros(ns) == 1,
{
    let us = whole_of(rounded_micros(ns)) as int;
    if ns == 0 {
        lemma_no_time();
    } else {
        lemma_micros(ns);
        assert(us * 1000 <= ns <= us * 1000 + 1000);
    }
}

/// That no time takes no microseconds.
proof fn lemma_no_time()
    ensures
        whole_of(rounded_micros(0)) == 0,
{
    let ms = quotient(number(0), number(1_000_000));
    let b = number(1000);
    assert(ms.digits == 0);
    assert(ms.digits * b.digits == 0) by (nonlinear_arith)
        requires
            ms.digits == 0,
    ;
    lemma2_to64();
}

/// That the microseconds of a latency go into it, and leave no more than one over.
proof fn lemma_micros(ns: u64)
    requires
        0 < ns < 0x8_0000_0000_0000,
    ensures
        ({
            let us = whole_of(rounded_micros(ns));
            us * 1000 <= ns <= us * 1000 + 1000
        }),
{
    let n = ns as nat;
    let ms = rounded(n, 1_000_000, 0);
    lemma_quotient(n, 1_000_000);
    lemma_rounded_positive(n, 1_000_000, 0);
    lemma_times_whole(ms, 1000);
    let us = rounded(ms.digits * 1000, 1, ms.exponent);
    assert(rounded_micros(ns) == us);
    let low = if ms.exponent < us.exponent {
        ms.exponent
    } else {
        us.exponent
    };
    let k: int = if low < 1 {
        1 - low
    } else {
        1
    };
    lemma_rounded_positive(ms.digits * 1000, 1, ms.exponent);
    law_rounded_is_near(n, 1_000_000, 0, k);
    law_rounded_is_near(ms.digits * 1000, 1, ms.exponent, k);
    lemma_whole_bounds(us, k);
    lemma_pow2_pos(k as nat);
    lemma_pow2_pos((k + ms.exponent) as nat);
    let unit = pow2(k as nat) as int;
    let m = scaled(ms, k);
    let x = (ms.digits * 1000 * pow2((k + ms.exponent) as nat)) as int;
    let y = scaled(us, k);
    let d = ms.digits as int;
    let p = pow2((k + ms.exponent) as nat) as int;
    assert(x == 1000 * m) by (nonlinear_arith)
        requires
            x == d * 1000 * p,
            m == d * p,
    ;
    assert(x > 0) by (nonlinear_arith)
        requires
            x == d * 1000 * p,
            d > 0,
            p > 0,
    ;
    lemma_near_twice(n as int, unit, x, y, whole_of(us) as int);
}

/// That being near twice is being near enough, where the whole is below two to the 51st.
proof fn lemma_near_twice(n: int, unit: int, x: int, y: int, w: int)
    requires
        0 < n < 0x8_0000_0000_0000,
        unit > 0,
        x > 0,
        is_near(n * unit, x * 1000),
        is_near(x, y),
        w * unit <= y < (w + 1) * unit,
    ensures
        w * 1000 <= n <= w * 1000 + 1000,
{
    let a = n * unit;
    let big = above() as int;
    assert(a < 0x8_0000_0000_0000 * unit) by (nonlinear_arith)
        requires
            a == n * unit,
            n < 0x8_0000_0000_0000,
            unit > 0,
    ;
    // Each difference is less than a quarter of a unit, and a little more together.
    assert(4 * (a - x * 1000) < unit && 4 * (x * 1000 - a) < unit);
    assert(x * 1000 <= 2 * a);
    assert(2 * (x - y) * 1000 < unit && 2 * (y - x) * 1000 < unit);
    assert(w * 1000 * unit == 1000 * (w * unit)) by (nonlinear_arith);
    assert((w + 1) * unit == w * unit + unit) by (nonlinear_arith);
    if w * 1000 > n {
        assert((w * 1000) * unit >= (n + 1) * unit) by (nonlinear_arith)
            requires
                w * 1000 >= n + 1,
                unit > 0,
        ;
        assert((n + 1) * unit == a + unit) by (nonlinear_arith)
            requires
                a == n * unit,
        ;
    }
    if n > w * 1000 + 1000 {
        assert(n * unit >= (w * 1000 + 1001) * unit) by (nonlinear_arith)
            requires
                n >= w * 1000 + 1001,
                unit > 0,
        ;
        assert((w * 1000 + 1001) * unit == 1000 * (w * unit) + 1001 * unit) by (nonlinear_arith);
    }
}

/// What the histogram of a run holds of its latencies: all that are within its range.
pub open spec fn kept(latencies: Seq<u64>) -> Multiset<u64>
    decreases latencies.len(),
{
    if latencies.len() == 0 {
        Multiset::empty()
    } else {
        let before = kept(latencies.drop_last());
        let us = whole_micros(latencies.last());
        if us < range_end(2048, HIGHEST_US as nat) {
            before.insert(us)
        } else {
            before
        }
    }
}

/// How many latencies are at most so many microseconds long.
pub open spec fn at_most(latencies: Seq<u64>, us: int) -> nat
    decreases latencies.len(),
{
    if latencies.len() == 0 {
        0
    } else {
        at_most(latencies.drop_last(), us) + if whole_micros(latencies.last()) <= us {
            1nat
        } else {
            0
        }
    }
}

/// That the range of the histogram of a run ends at two to the twenty-seventh.
proof fn lemma_range()
    ensures
        range_end(2048, HIGHEST_US as nat) == 134_217_728,
{
    reveal_with_fuel(range_end, 18);
}

/// Whether a value is at most so high, and not zero.
spec fn up_to(us: int) -> spec_fn(u64) -> bool {
    |v: u64| 1 <= v <= us
}

/// That the histogram of a run counts what is at most so long, within its range.
proof fn lemma_kept_counts(latencies: Seq<u64>, us: int)
    requires
        us < range_end(2048, HIGHEST_US as nat),
    ensures
        kept(latencies).filter(up_to(us)).len() == at_most(latencies, us),
        at_most(latencies, us) <= latencies.len(),
    decreases latencies.len(),
{
    let f = up_to(us);
    if latencies.len() == 0 {
        assert(kept(latencies).filter(f) =~= Multiset::empty());
    } else {
        lemma_kept_counts(latencies.drop_last(), us);
        let before = kept(latencies.drop_last());
        let last = whole_micros(latencies.last());
        if last < range_end(2048, HIGHEST_US as nat) {
            if last <= us {
                assert(before.insert(last).filter(f) =~= before.filter(f).insert(last));
            } else {
                assert(before.insert(last).filter(f) =~= before.filter(f));
            }
        }
    }
}

/// The times of a report, in milliseconds.
pub open spec fn bucket_bounds() -> Seq<u64> {
    seq![1, 2, 5, 10, 20, 50, 100, 200, 500, 1000, 2000, 5000]
}

/// How many latencies came within a time, as far as the histogram tells times apart.
pub open spec fn bucket_of(latencies: Seq<u64>, le_ms: u64) -> LatencyBucket {
    LatencyBucket {
        le_ms,
        count: at_most(latencies, highest_equivalent(le_ms as nat * 1000)) as u64,
    }
}

/// How many latencies came within each of the times of a report.
pub open spec fn buckets_of(latencies: Seq<u64>) -> Seq<LatencyBucket> {
    if latencies.len() == 0 {
        Seq::empty()
    } else {
        Seq::new(12, |k: int| bucket_of(latencies, bucket_bounds()[k]))
    }
}

/// That the values that share a count are few against their size.
#[verifier::spinoff_prover]
proof fn lemma_width(value: nat, top: nat)
    requires
        top > 0,
    ensures
        width_at(value, top) >= 1,
        value >= top ==> width_at(value, top) * top <= 2 * value,
        value < top ==> width_at(value, top) == 1,
    decreases
            if top > value {
                0
            } else {
                value + 1 - top
            },
{
    if value >= top {
        lemma_width(value, top * 2);
        let w = width_at(value, top * 2);
        let twice = width_at(value, top);
        assert(twice == 2 * w);
        assert(twice * top == w * (top * 2)) by (nonlinear_arith)
            requires
                twice == 2 * w,
        ;
        if value < top * 2 {
            assert(w * (top * 2) == top * 2) by (nonlinear_arith)
                requires
                    w == 1,
            ;
        }
    }
}

/// That the values that share a count with a value lie close to it.
proof fn lemma_edge(value: nat)
    ensures
        lowest_equivalent(value) <= value <= highest_equivalent(value),
        highest_equivalent(value) * 1024 <= value * 1025,
        value < 2048 ==> lowest_equivalent(value) == value == highest_equivalent(value),
{
    lemma_width(value, 2048);
    let w = width_at(value, 2048);
    assert(0 <= value % w < w) by (nonlinear_arith)
        requires
            w >= 1,
    ;
}

/// That a longer time holds no fewer latencies.
proof fn lemma_at_most_grows(latencies: Seq<u64>, us: int, more: int)
    requires
        us <= more,
    ensures
        at_most(latencies, us) <= at_most(latencies, more) <= latencies.len(),
    decreases latencies.len(),
{
    if latencies.len() > 0 {
        lemma_at_most_grows(latencies.drop_last(), us, more);
    }
}

/// In the histogram of a report no count is below the one before it, and none is above the number
/// of latencies.
pub proof fn law_histogram_counts_grow(latencies: Seq<u64>, i: int, j: int)
    requires
        0 <= i <= j < buckets_of(latencies).len(),
        latencies.len() <= u64::MAX,
    ensures
        buckets_of(latencies)[i].le_ms <= buckets_of(latencies)[j].le_ms,
        buckets_of(latencies)[i].count <= buckets_of(latencies)[j].count <= latencies.len(),
{
    let a = bucket_bounds()[i] as nat * 1000;
    let b = bucket_bounds()[j] as nat * 1000;
    lemma_edge(a);
    lemma_edge(b);
    assert(a == b || 2 * a <= b);
    lemma_at_most_grows(latencies, highest_equivalent(a), highest_equivalent(b));
}

/// How many latencies are no longer than so many nanoseconds.
pub open spec fn within(latencies: Seq<u64>, ns: int) -> nat {
    latencies.filter(|latency: u64| latency <= ns).len()
}

/// That what counts as at most so many microseconds is at most that long, give or take one.
proof fn lemma_within(latencies: Seq<u64>, us: int)
    requires
        us >= 1,
        forall|i: int| 0 <= i < latencies.len() ==> #[trigger] latencies[i] < 0x8_0000_0000_0000,
    ensures
        within(latencies, us * 1000) <= at_most(latencies, us) <= within(
            latencies,
            us * 1000 + 1000,
        ),
    decreases latencies.len(),
{
    reveal(Seq::filter);
    if latencies.len() > 0 {
        let before = latencies.drop_last();
        assert forall|i: int| 0 <= i < before.len() implies #[trigger] before[i]
            < 0x8_0000_0000_0000 by {
            assert(before[i] == latencies[i]);
        }
        lemma_within(before, us);
        assert(latencies[latencies.len() - 1] < 0x8_0000_0000_0000);
        law_micros_go_into_the_latency(latencies.last());
    }
}

/// That a longer time holds no fewer latencies.
proof fn lemma_within_grows(latencies: Seq<u64>, ns: int, more: int)
    requires
        ns <= more,
    ensures
        within(latencies, ns) <= within(latencies, more) <= latencies.len(),
    decreases latencies.len(),
{
    reveal(Seq::filter);
    if latencies.len() > 0 {
        lemma_within_grows(latencies.drop_last(), ns, more);
    }
}

/// That buckets count, for each of twelve times from one millisecond to five seconds, the answers
/// that came within it: all that did, and none that took longer by more than a thousandth and a
/// microsecond.
pub open spec fn counts_in_time(buckets: Seq<LatencyBucket>, latencies: Seq<u64>) -> bool {
    let times = seq![1int, 2, 5, 10, 20, 50, 100, 200, 500, 1000, 2000, 5000];
    &&& latencies.len() == 0 ==> buckets.len() == 0
    &&& latencies.len() > 0 ==> buckets.len() == 12
    &&& forall|k: int|
        0 <= k < buckets.len() ==> {
            let ms = times[k];
            &&& (#[trigger] buckets[k]).le_ms == ms
            &&& within(latencies, ms * 1_000_000) <= buckets[k].count
            &&& buckets[k].count <= within(latencies, ms * 1_000_000 + ms * 1000 + 1000)
        }
}

/// The histogram of a report counts the answers that came within each of its times, where none took
/// as long as 26 days.
pub proof fn law_histogram_counts_in_time(latencies: Seq<u64>)
    requires
        latencies.len() <= u64::MAX,
        forall|i: int| 0 <= i < latencies.len() ==> #[trigger] latencies[i] < 0x8_0000_0000_0000,
    ensures
        counts_in_time(buckets_of(latencies), latencies),
{
    assert forall|k: int| 0 <= k < buckets_of(latencies).len() implies {
        let ms = seq![1int, 2, 5, 10, 20, 50, 100, 200, 500, 1000, 2000, 5000][k];
        &&& (#[trigger] buckets_of(latencies)[k]).le_ms == ms
        &&& within(latencies, ms * 1_000_000) <= buckets_of(latencies)[k].count
        &&& buckets_of(latencies)[k].count <= within(
            latencies,
            ms * 1_000_000 + ms * 1000 + 1000,
        )
    } by {
        lemma_bucket(latencies, k);
    }
}

/// That a bucket counts the answers that came within its time.
proof fn lemma_bucket(latencies: Seq<u64>, k: int)
    requires
        0 <= k < 12,
        latencies.len() <= u64::MAX,
        forall|i: int| 0 <= i < latencies.len() ==> #[trigger] latencies[i] < 0x8_0000_0000_0000,
    ensures
        latencies.len() == 0 ==> buckets_of(latencies).len() == 0,
        latencies.len() > 0 ==> {
            let bucket = buckets_of(latencies)[k];
            let ms = seq![1int, 2, 5, 10, 20, 50, 100, 200, 500, 1000, 2000, 5000][k];
            &&& buckets_of(latencies).len() == 12
            &&& bucket.le_ms == ms
            &&& within(latencies, ms * 1_000_000) <= bucket.count
            &&& bucket.count <= within(latencies, ms * 1_000_000 + ms * 1000 + 1000)
        },
{
    if latencies.len() > 0 {
        let ms = bucket_bounds()[k] as int;
        let edge = highest_equivalent((ms * 1000) as nat);
        lemma_edge((ms * 1000) as nat);
        lemma_within(latencies, edge);
        lemma_within_grows(latencies, ms * 1_000_000, edge * 1000);
        lemma_within_grows(
            latencies,
            edge * 1000 + 1000,
            ms * 1_000_000 + ms * 1000 + 1000,
        );
        lemma_at_most_grows(latencies, edge, edge);
    }
}

/// The latencies of a run, in nanoseconds and in the order in which they came, with a histogram
/// of them.
pub struct Latencies {
    values: Vec<u64>,
    counts: Counts,
}

impl View for Latencies {
    type V = Seq<u64>;

    closed spec fn view(&self) -> Seq<u64> {
        self.values@
    }
}

impl Latencies {
    /// That the histogram holds what it should of the latencies.
    pub closed spec fn wf(self) -> bool {
        made_for(self.counts) == HIGHEST_US && recorded(self.counts) == kept(self.values@)
    }

    /// No latencies.
    pub fn new() -> (r: Latencies)
        ensures
            r.wf(),
            r@ == Seq::<u64>::empty(),
    {
        Latencies { values: Vec::new(), counts: new_with_bounds(1, HIGHEST_US, 3).unwrap() }
    }

    /// Takes in one more latency. One that is out of the range of the histogram is not counted in
    /// it.
    pub fn note(&mut self, ns: u64)
        requires
            old(self).wf(),
        ensures
            final(self).wf(),
            final(self)@ == old(self)@.push(ns),
    {
        let _ = record(&mut self.counts, micros(ns));
        self.values.push(ns);
        assert(self.values@.drop_last() =~= old(self).values@);
    }

    /// How many latencies came within each of the times of a report. Without latencies there is
    /// nothing to count.
    pub fn build_histogram(&self) -> (r: LatencyHistogram)
        requires
            self.wf(),
        ensures
            r.buckets@ == buckets_of(self@),
    {
        if self.values.len() == 0 {
            return LatencyHistogram::default();
        }
        let bounds: [u64; 12] = [1, 2, 5, 10, 20, 50, 100, 200, 500, 1000, 2000, 5000];
        let mut buckets: Vec<LatencyBucket> = Vec::new();
        let mut i: usize = 0;
        while i < 12
            invariant
                i <= 12,
                self.wf(),
                self.values@.len() <= usize::MAX,
                bounds@ == bucket_bounds(),
                buckets@ == Seq::new(i as nat, |k: int| bucket_of(self@, bucket_bounds()[k])),
            decreases 12 - i,
        {
            let upper_ms: u64 = bounds[i];
            proof {
                lemma_range();
                lemma_edge(upper_ms as nat * 1000);
                lemma_edge(1);
                let edge = highest_equivalent(upper_ms as nat * 1000);
                lemma_kept_counts(self.values@, edge);
                assert(shares(1, (upper_ms * 1000) as nat) =~= up_to(edge));
            }
            let count: u64 = count_between(&self.counts, 1, upper_ms * 1000);
            buckets.push(LatencyBucket { le_ms: upper_ms, count });
            i = i + 1;
        }
        LatencyHistogram { buckets }
    }
}

} // verus!
