//! Quantiles and means.
use vstd::prelude::*;
use vstd::relations::{sorted_by, total_ordering};

use crate::report::Ratio;

verus! {

/// The order of numbers.
pub open spec fn up() -> spec_fn(u64, u64) -> bool {
    |a: u64, b: u64| a <= b
}

/// The place, in a row of so many values in order, of the one that so many per cent of them do not
/// exceed: rounded to the nearest place, and up from the middle between two. More than all of them
/// is all of them.
pub open spec fn rank(len: nat, percent: nat) -> int {
    let share = if percent > 100 {
        100
    } else {
        percent
    };
    (share * (len - 1) + 50) / 100
}

/// The value that so many per cent of the values do not exceed, and zero where there are none.
pub open spec fn quantile_of(values: Seq<u64>, percent: nat) -> u64 {
    if values.len() == 0 {
        0
    } else {
        values.sort_by(up())[rank(values.len(), percent)]
    }
}

/// The sum of some values.
pub open spec fn sum_of(values: Seq<u64>) -> nat
    decreases values.len(),
{
    if values.len() == 0 {
        0
    } else {
        sum_of(values.drop_last()) + values.last() as nat
    }
}

/// The mean of some times in nanoseconds, in milliseconds, and zero where there are none.
pub open spec fn mean_of(values: Seq<u64>) -> Ratio {
    if values.len() == 0 {
        Ratio::nothing()
    } else {
        Ratio { num: sum_of(values) as u128, den: (values.len() * 1_000_000) as u128 }
    }
}

/// A time in nanoseconds, in milliseconds.
pub open spec fn ms_of(ns: u64) -> Ratio {
    Ratio { num: ns as u128, den: 1_000_000 }
}

/// That numbers are ordered.
proof fn lemma_up()
    ensures
        total_ordering(up()),
{
}

/// Any row of the values in order shows the quantile at its place.
pub proof fn law_quantile_is_in_its_place(values: Seq<u64>, ordered: Seq<u64>, percent: nat)
    requires
        values.len() > 0,
        ordered.to_multiset() == values.to_multiset(),
        forall|i: int, j: int| 0 <= i < j < ordered.len() ==> ordered[i] <= ordered[j],
    ensures
        quantile_of(values, percent) == ordered[rank(values.len(), percent)],
{
    lemma_up();
    values.lemma_sort_by_ensures(up());
    vstd::seq_lib::lemma_sorted_unique(ordered, values.sort_by(up()), up());
}

/// That the place of a quantile is within the row, and further on for a higher one.
proof fn lemma_rank(len: nat, percent: nat, more: nat)
    requires
        len > 0,
        percent <= more,
    ensures
        0 <= rank(len, percent) <= rank(len, more) < len,
{
    let a: nat = if percent > 100 {
        100
    } else {
        percent
    };
    let b: nat = if more > 100 {
        100
    } else {
        more
    };
    assert(0 <= a * (len - 1) <= b * (len - 1) <= 100 * (len - 1)) by (nonlinear_arith)
        requires
            a <= b <= 100,
            len > 0,
    ;
}

/// That what has the same elements has the same length.
proof fn lemma_same_length(a: Seq<u64>, b: Seq<u64>)
    requires
        a.to_multiset() == b.to_multiset(),
    ensures
        a.len() == b.len(),
{
    a.to_multiset_ensures();
    b.to_multiset_ensures();
}

/// A quantile is one of the values.
pub proof fn law_quantile_is_a_value(values: Seq<u64>, percent: nat)
    requires
        values.len() > 0,
    ensures
        values.contains(quantile_of(values, percent)),
{
    lemma_up();
    lemma_rank(values.len(), percent, percent);
    values.lemma_sort_by_ensures(up());
    let ordered = values.sort_by(up());
    lemma_same_length(values, ordered);
    let q = ordered[rank(values.len(), percent)];
    assert(ordered.contains(q));
}

/// A higher quantile is no lower.
pub proof fn law_quantiles_grow(values: Seq<u64>, percent: nat, more: nat)
    requires
        percent <= more,
    ensures
        quantile_of(values, percent) <= quantile_of(values, more),
{
    if values.len() > 0 {
        lemma_up();
        lemma_rank(values.len(), percent, more);
        values.lemma_sort_by_ensures(up());
        let ordered = values.sort_by(up());
        lemma_same_length(values, ordered);
        let i = rank(values.len(), percent);
        let j = rank(values.len(), more);
        if i < j {
            assert(up()(ordered[i], ordered[j]));
        }
    }
}

/// The order in which the values come does not matter.
pub proof fn law_quantile_ignores_order(values: Seq<u64>, others: Seq<u64>, percent: nat)
    requires
        values.to_multiset() == others.to_multiset(),
    ensures
        quantile_of(values, percent) == quantile_of(others, percent),
{
    lemma_up();
    lemma_same_length(values, others);
    values.lemma_sort_by_ensures(up());
    others.lemma_sort_by_ensures(up());
    vstd::seq_lib::lemma_sorted_unique(values.sort_by(up()), others.sort_by(up()), up());
}

/// All of the values, or more, do not exceed the greatest of them, and none of them goes below the
/// least.
pub proof fn law_quantiles_end_at_the_extremes(values: Seq<u64>, percent: nat, i: int)
    requires
        0 <= i < values.len(),
        percent >= 100,
    ensures
        quantile_of(values, 0) <= values[i] <= quantile_of(values, percent),
{
    lemma_up();
    values.lemma_sort_by_ensures(up());
    let ordered = values.sort_by(up());
    lemma_same_length(values, ordered);
    values.to_multiset_ensures();
    ordered.to_multiset_ensures();
    assert(values.contains(values[i]));
    assert(values.to_multiset().count(values[i]) > 0);
    assert(ordered.to_multiset().count(values[i]) > 0);
    assert(ordered.contains(values[i]));
    let k = choose|k: int| 0 <= k < ordered.len() && ordered[k] == values[i];
    let last = ordered.len() - 1;
    assert(0 * (values.len() - 1) == 0);
    assert(rank(values.len(), 0) == 0);
    assert(rank(values.len(), percent) == last);
    if k > 0 {
        assert(up()(ordered[0], ordered[k]));
    }
    if k < last {
        assert(up()(ordered[k], ordered[last]));
    }
}

/// That elements of two parts are the elements of the whole.
proof fn lemma_parts(whole: Seq<u64>, mid: int)
    requires
        0 <= mid <= whole.len(),
    ensures
        whole.to_multiset() == whole.take(mid).to_multiset().add(whole.skip(mid).to_multiset()),
{
    vstd::seq_lib::lemma_multiset_commutative(whole.take(mid), whole.skip(mid));
    assert(whole.take(mid) + whole.skip(mid) =~= whole);
}

/// That one more element at the end is one more element.
proof fn lemma_one_more(s: Seq<u64>, i: int)
    requires
        0 <= i < s.len(),
    ensures
        s.take(i + 1).to_multiset() == s.take(i).to_multiset().insert(s[i]),
{
    s.take(i).to_multiset_ensures();
    assert(s.take(i + 1) =~= s.take(i).push(s[i]));
}

/// Puts two rows in order into one.
fn merge(a: &Vec<u64>, b: &Vec<u64>) -> (r: Vec<u64>)
    requires
        sorted_by(a@, up()),
        sorted_by(b@, up()),
        a@.len() + b@.len() <= usize::MAX,
    ensures
        sorted_by(r@, up()),
        r@.to_multiset() == a@.to_multiset().add(b@.to_multiset()),
{
    let mut r: Vec<u64> = Vec::new();
    let mut i: usize = 0;
    let mut j: usize = 0;
    assert(r@.to_multiset() =~= a@.take(0).to_multiset().add(b@.take(0).to_multiset())) by {
        r@.to_multiset_ensures();
        a@.take(0).to_multiset_ensures();
        b@.take(0).to_multiset_ensures();
    }
    while i < a.len() || j < b.len()
        invariant
            i <= a@.len(),
            j <= b@.len(),
            a@.len() + b@.len() <= usize::MAX,
            sorted_by(a@, up()),
            sorted_by(b@, up()),
            sorted_by(r@, up()),
            r@.to_multiset() == a@.take(i as int).to_multiset().add(
                b@.take(j as int).to_multiset(),
            ),
            forall|k: int, m: int|
                #![trigger r@[k], a@[m]]
                0 <= k < r@.len() && i <= m < a@.len() ==> r@[k] <= a@[m],
            forall|k: int, m: int|
                #![trigger r@[k], b@[m]]
                0 <= k < r@.len() && j <= m < b@.len() ==> r@[k] <= b@[m],
        decreases a@.len() - i + b@.len() - j,
    {
        proof {
            r@.to_multiset_ensures();
            assert forall|k: int, m: int| 0 <= k < m < a@.len() implies a@[k] <= a@[m] by {
                assert(up()(a@[k], a@[m]));
            }
            assert forall|k: int, m: int| 0 <= k < m < b@.len() implies b@[k] <= b@[m] by {
                assert(up()(b@[k], b@[m]));
            }
        }
        let ghost before = r@;
        if j >= b.len() || (i < a.len() && a[i] <= b[j]) {
            proof {
                lemma_one_more(a@, i as int);
                assert(a@.take(i as int).to_multiset().insert(a@[i as int]).add(
                    b@.take(j as int).to_multiset(),
                ) =~= r@.to_multiset().insert(a@[i as int]));
            }
            r.push(a[i]);
            i = i + 1;
        } else {
            proof {
                lemma_one_more(b@, j as int);
                assert(a@.take(i as int).to_multiset().add(
                    b@.take(j as int).to_multiset().insert(b@[j as int]),
                ) =~= r@.to_multiset().insert(b@[j as int]));
            }
            r.push(b[j]);
            j = j + 1;
        }
        assert forall|k: int, m: int| 0 <= k < m < r@.len() implies #[trigger] up()(
            r@[k],
            r@[m],
        ) by {
            if m < before.len() {
                assert(up()(before[k], before[m]));
            }
        }
    }
    assert(a@.take(a@.len() as int) =~= a@);
    assert(b@.take(b@.len() as int) =~= b@);
    r
}

/// The values in order.
fn sorted(values: &[u64]) -> (r: Vec<u64>)
    ensures
        r@ == values@.sort_by(up()),
    decreases values@.len(),
{
    let n: usize = values.len();
    proof {
        lemma_up();
        values@.lemma_sort_by_ensures(up());
    }
    if n < 2 {
        let mut r: Vec<u64> = Vec::new();
        if n == 1 {
            r.push(values[0]);
        }
        assert(r@ =~= values@);
        proof {
            vstd::seq_lib::lemma_sorted_unique(r@, values@.sort_by(up()), up());
        }
        return r;
    }
    let mid: usize = n / 2;
    let low: &[u64] = vstd::slice::slice_subrange(values, 0, mid);
    let high: &[u64] = vstd::slice::slice_subrange(values, mid, n);
    assert(low@ =~= values@.take(mid as int));
    assert(high@ =~= values@.skip(mid as int));
    let a: Vec<u64> = sorted(low);
    let b: Vec<u64> = sorted(high);
    proof {
        lemma_parts(values@, mid as int);
        low@.lemma_sort_by_ensures(up());
        high@.lemma_sort_by_ensures(up());
        lemma_same_length(low@, a@);
        lemma_same_length(high@, b@);
    }
    let r: Vec<u64> = merge(&a, &b);
    proof {
        vstd::seq_lib::lemma_sorted_unique(r@, values@.sort_by(up()), up());
    }
    r
}

/// The value that so many per cent of the values do not exceed, and zero where there are none.
pub fn quantile(values: &[u64], percent: u8) -> (r: u64)
    ensures
        r == quantile_of(values@, percent as nat),
{
    let n: usize = values.len();
    if n == 0 {
        return 0;
    }
    let share: u8 = if percent > 100 {
        100
    } else {
        percent
    };
    let ordered: Vec<u64> = sorted(values);
    proof {
        lemma_up();
        values@.lemma_sort_by_ensures(up());
        lemma_same_length(values@, ordered@);
        lemma_rank(values@.len(), percent as nat, percent as nat);
        assert(0 <= share * (n - 1) <= 100 * (n - 1)) by (nonlinear_arith)
            requires
                share <= 100,
                n > 0,
        ;
    }
    let place: u128 = (share as u128 * (n - 1) as u128 + 50) / 100;
    ordered[place as usize]
}

/// The mean of some times in nanoseconds, in milliseconds, and zero where there are none.
pub fn mean(values: &[u64]) -> (r: Ratio)
    ensures
        r == mean_of(values@),
        r.wf(),
{
    let n: usize = values.len();
    if n == 0 {
        return Ratio::zero();
    }
    let mut total: u128 = 0;
    let mut i: usize = 0;
    while i < n
        invariant
            i <= n,
            n == values@.len(),
            total == sum_of(values@.take(i as int)),
            total <= i * u64::MAX,
        decreases n - i,
    {
        assert(values@.take(i + 1).drop_last() =~= values@.take(i as int));
        assert((i + 1) * u64::MAX == i * u64::MAX + u64::MAX) by (nonlinear_arith);
        assert(i * u64::MAX <= u64::MAX * u64::MAX) by (nonlinear_arith)
            requires
                i <= u64::MAX,
        ;
        total = total + values[i] as u128;
        i = i + 1;
    }
    assert(values@.take(n as int) =~= values@);
    Ratio { num: total, den: n as u128 * 1_000_000 }
}

/// A time in nanoseconds, in milliseconds.
pub fn ms(ns: u64) -> (r: Ratio)
    ensures
        r == ms_of(ns),
        r.wf(),
{
    Ratio { num: ns as u128, den: 1_000_000 }
}

} // verus!
