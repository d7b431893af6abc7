//! What the figures of a report mean.
//!
//! A figure is tied here to what it was taken from by what it has to satisfy: a rate times the time
//! that it was taken over is what was counted, a mean times the number of values is their sum, a
//! quantile is what stands at its place in any row of the values in order.
use vstd::prelude::*;

use crate::figures::{bits_per_second, loss_of, per_second, whole_ms};
use crate::report::Ratio;
use crate::stats::{law_quantile_is_in_its_place, mean_of, ms_of, quantile_of, rank, sum_of};

verus! {

/// That a fraction says how often per second something happened that happened so often in a span of
/// time. A span of less than a microsecond is taken for one.
pub open spec fn is_per_second(shown: Ratio, count: int, span_ns: int) -> bool {
    &&& shown.den > 0
    &&& span_ns >= 1000 ==> shown.num * span_ns == count * 1_000_000_000 * shown.den
    &&& span_ns < 1000 ==> shown.num * 1000 == count * 1_000_000_000 * shown.den
}

/// That a fraction says how many bits per second so many bytes in a span of time are.
pub open spec fn is_bits_per_second(shown: Ratio, bytes: int, span_ns: int) -> bool {
    is_per_second(shown, 8 * bytes, span_ns)
}

/// That a fraction says how many per cent a part is of the whole. Of nothing it is none.
pub open spec fn is_percentage(shown: Ratio, part: int, whole: int) -> bool {
    &&& shown.den > 0
    &&& whole == 0 ==> shown.num == 0
    &&& whole != 0 ==> shown.num * whole == 100 * part * shown.den
}

/// That a fraction says how many milliseconds a number of nanoseconds is.
pub open spec fn is_ms(shown: Ratio, ns: int) -> bool {
    &&& shown.den > 0
    &&& shown.num * 1_000_000 == ns * shown.den
}

/// That a number says how many whole milliseconds there are in a span of time, if 64 bits can.
pub open spec fn is_whole_ms(shown: u64, ns: int) -> bool {
    ns / 1_000_000 <= u64::MAX ==> shown * 1_000_000 <= ns < shown * 1_000_000 + 1_000_000
}

/// The sum of some times.
pub open spec fn total(times: Seq<u64>) -> int {
    times.fold_left(0int, |sum: int, time: u64| sum + time)
}

/// That a fraction says the mean of some times in milliseconds. Of no times it is zero.
pub open spec fn is_mean_ms(shown: Ratio, times: Seq<u64>) -> bool {
    &&& shown.den > 0
    &&& times.len() == 0 ==> shown.num == 0
    &&& shown.num * (times.len() * 1_000_000) == total(times) * shown.den
}

/// That a row holds some times, the lesser ones first.
pub open spec fn is_row_of(row: Seq<u64>, times: Seq<u64>) -> bool {
    &&& row.to_multiset() == times.to_multiset()
    &&& forall|i: int, j: int| 0 <= i < j < row.len() ==> row[i] <= row[j]
}

/// That a place is the nearest to so many per cent of the way from the first of a row to the last;
/// from the middle between two it is the further one.
pub open spec fn is_place(place: int, len: nat, percent: int) -> bool {
    percent * (len - 1) - 50 < 100 * place <= percent * (len - 1) + 50
}

/// That a fraction says in milliseconds which time so many per cent of the times do not exceed: the
/// one at the nearest place of a row of them. Of no times it is zero.
pub open spec fn is_quantile_ms(shown: Ratio, times: Seq<u64>, percent: int) -> bool {
    &&& shown.den > 0
    &&& times.len() == 0 ==> shown.num == 0
    &&& forall|row: Seq<u64>, place: int|
        #![trigger is_row_of(row, times), is_place(place, times.len(), percent)]
        times.len() > 0 && is_row_of(row, times) && is_place(place, times.len(), percent)
            ==> is_ms(shown, row[place] as int)
}

/// A rate times the time that it was taken over is what was counted.
pub proof fn law_rates_are_what_was_counted(count: nat, span_ns: u128)
    requires
        count <= u64::MAX,
    ensures
        is_per_second(per_second(count, span_ns), count as int, span_ns as int),
        is_bits_per_second(bits_per_second(count, span_ns), count as int, span_ns as int),
{
    let r = per_second(count, span_ns);
    let b = bits_per_second(count, span_ns);
    let n = (count * 1_000_000_000) as int;
    let m = (count * 8 * 1_000_000_000) as int;
    let s = span_ns as int;
    assert(r.num == n && b.num == m);
    assert(8 * count as int * 1_000_000_000 == m);
}

/// The loss of a run is its lost packets in a hundred that it sent.
pub proof fn law_loss_is_the_share_of_the_lost(lost: nat, sent: nat)
    requires
        lost <= u64::MAX,
        sent <= u64::MAX,
    ensures
        is_percentage(loss_of(lost, sent), lost as int, sent as int),
{
}

/// Whole milliseconds are those that are full.
pub proof fn law_whole_ms_are_full(ns: u128)
    ensures
        is_whole_ms(whole_ms(ns), ns as int),
{
}

/// That the sum of some times is the sum.
pub proof fn lemma_total(times: Seq<u64>)
    ensures
        total(times) == sum_of(times),
        0 <= total(times) <= times.len() * u64::MAX,
    decreases times.len(),
{
    if times.len() > 0 {
        lemma_total(times.drop_last());
        let n = times.len() as int;
        assert((n - 1) * u64::MAX + u64::MAX == n * u64::MAX) by (nonlinear_arith);
    }
}

/// A mean times the number of values is their sum.
pub proof fn law_mean_is_the_sum_over_the_number(times: Seq<u64>)
    requires
        times.len() <= u64::MAX,
    ensures
        is_mean_ms(mean_of(times), times),
{
    lemma_total(times);
    let n = times.len() as int;
    assert(n * u64::MAX <= u64::MAX * u64::MAX) by (nonlinear_arith)
        requires
            0 <= n <= u64::MAX,
    ;
    let r = mean_of(times);
    if n > 0 {
        assert(r.num == total(times));
        assert(r.den == n * 1_000_000);
    }
}

/// A quantile stands at its place in any row of the values in order, and of all of the values or
/// more it is the greatest.
pub proof fn law_quantile_stands_at_the_nearest_place(
    times: Seq<u64>,
    row: Seq<u64>,
    percent: nat,
    place: int,
)
    requires
        times.len() > 0,
        is_row_of(row, times),
        is_place(
            place,
            times.len(),
            if percent < 100 {
                percent as int
            } else {
                100
            },
        ),
    ensures
        0 <= place < row.len() == times.len(),
        quantile_of(times, percent) == row[place],
{
    law_quantile_is_in_its_place(times, row, percent);
    times.to_multiset_ensures();
    row.to_multiset_ensures();
    let p = if percent < 100 {
        percent as int
    } else {
        100
    };
    let n = times.len() - 1;
    assert(0 <= p * n <= 100 * n) by (nonlinear_arith)
        requires
            0 <= p <= 100,
            n >= 0,
    ;
    assert(rank(times.len(), percent) == place);
}

/// Of no values a quantile is zero, and whatever it is of, it is shown in milliseconds.
pub proof fn law_quantile_is_shown(times: Seq<u64>, percent: nat)
    requires
        percent <= 100,
    ensures
        is_quantile_ms(ms_of(quantile_of(times, percent)), times, percent as int),
{
    let shown = ms_of(quantile_of(times, percent));
    assert forall|row: Seq<u64>, place: int|
        #![trigger is_row_of(row, times), is_place(place, times.len(), percent as int)]
        times.len() > 0 && is_row_of(row, times) && is_place(
            place,
            times.len(),
            percent as int,
        ) implies is_ms(shown, row[place] as int) by {
        law_quantile_stands_at_the_nearest_place(times, row, percent, place);
    }
}

} // verus!
