//! Integer features of a weekly time series: its summary, its peaks and the
//! statistics of the sequences that the peaks delimit, and its quartiles.

use vstd::prelude::*;
use vstd::relations::{sorted_by, total_ordering};

verus! {

/// Sum of a sequence of counts.
pub open spec fn seq_sum(s: Seq<usize>) -> int
    decreases s.len(),
{
    if s.len() == 0 {
        0
    } else {
        seq_sum(s.drop_last()) + s.last()
    }
}

/// The largest count, or 0 for an empty sequence.
pub open spec fn seq_max(s: Seq<usize>) -> usize
    decreases s.len(),
{
    if s.len() == 0 {
        0
    } else {
        let m = seq_max(s.drop_last());
        if s.last() > m {
            s.last()
        } else {
            m
        }
    }
}

/// The smallest count, or `usize::MAX` for an empty sequence.
pub open spec fn seq_min(s: Seq<usize>) -> usize
    decreases s.len(),
{
    if s.len() == 0 {
        usize::MAX
    } else {
        let m = seq_min(s.drop_last());
        if s.last() < m {
            s.last()
        } else {
            m
        }
    }
}

/// Minimum, maximum and sum of a sequence of counts (the mean is their sum divided
/// by their number).
pub struct MinMaxSum {
    pub min: usize,
    pub max: usize,
    pub sum: usize,
}

/// The minimum, maximum and sum of the values; the minimum of no values is
/// `usize::MAX` and their maximum is 0.
pub fn min_max_sum(values: &Vec<usize>) -> (r: MinMaxSum)
    requires
        seq_sum(values@) <= usize::MAX,
    ensures
        r.min == seq_min(values@),
        r.max == seq_max(values@),
        r.sum == seq_sum(values@),
{
    let mut max: usize = 0;
    let mut min: usize = usize::MAX;
    let mut sum: usize = 0;
    let mut i: usize = 0;
    while i < values.len()
        invariant
            i <= values@.len(),
            seq_sum(values@) <= usize::MAX,
            max == seq_max(values@.take(i as int)),
            min == seq_min(values@.take(i as int)),
            sum == seq_sum(values@.take(i as int)),
        decreases values@.len() - i,
    {
        proof {
            assert(values@.take(i + 1).drop_last() == values@.take(i as int));
            lemma_seq_sum_prefix(values@, i + 1);
        }
        let value = values[i];
        if value > max {
            max = value;
        }
        if value < min {
            min = value;
        }
        sum += value;
        i += 1;
    }
    proof {
        assert(values@.take(values@.len() as int) == values@);
    }
    MinMaxSum { min, max, sum }
}

/// The sum over a prefix is at most the sum over the whole sequence.
pub proof fn lemma_seq_sum_prefix(s: Seq<usize>, n: int)
    requires
        0 <= n <= s.len(),
    ensures
        seq_sum(s.take(n)) <= seq_sum(s),
        seq_sum(s.take(n)) >= 0,
    decreases s.len() - n,
{
    lemma_seq_sum_nonneg(s.take(n));
    if n < s.len() {
        lemma_seq_sum_prefix(s, n + 1);
        assert(s.take(n + 1).drop_last() == s.take(n));
    } else {
        assert(s.take(n) == s);
    }
}

pub proof fn lemma_seq_sum_nonneg(s: Seq<usize>)
    ensures
        seq_sum(s) >= 0,
    decreases s.len(),
{
    if s.len() > 0 {
        lemma_seq_sum_nonneg(s.drop_last());
    }
}

/// Length, peak and total of a time series.
pub struct SeriesSummary {
    /// Number of weeks.
    pub duration: usize,
    /// The largest value (0 when every value is 0).
    pub max_y: usize,
    /// One more than the position of the first largest value, or 0 when every value is 0.
    pub max_y_pos: usize,
    /// Sum of the values.
    pub sum_y: usize,
}

/// Length, peak and total of a time series.
pub fn summarize_time_series(timeseries: &Vec<usize>) -> (summary: SeriesSummary)
    requires
        seq_sum(timeseries@) <= usize::MAX,
    ensures
        summary.duration == timeseries@.len(),
        summary.max_y == seq_max(timeseries@),
        summary.sum_y == seq_sum(timeseries@),
        forall|k: int| 0 <= k < timeseries@.len() ==> timeseries@[k] <= summary.max_y,
        summary.max_y_pos == 0 <==> summary.max_y == 0,
        summary.max_y_pos > 0 ==> {
            &&& summary.max_y_pos <= timeseries@.len()
            &&& timeseries@[summary.max_y_pos - 1] == summary.max_y
            &&& forall|k: int| 0 <= k < summary.max_y_pos - 1 ==> timeseries@[k] < summary.max_y
        },
{
    let mut max_y: usize = 0;
    let mut max_y_pos: usize = 0;
    let mut sum_y: usize = 0;
    let mut current_week_index: usize = 0;
    while current_week_index < timeseries.len()
        invariant
            current_week_index <= timeseries@.len(),
            seq_sum(timeseries@) <= usize::MAX,
            max_y == seq_max(timeseries@.take(current_week_index as int)),
            sum_y == seq_sum(timeseries@.take(current_week_index as int)),
            forall|k: int| 0 <= k < current_week_index ==> timeseries@[k] <= max_y,
            max_y_pos == 0 <==> max_y == 0,
            max_y_pos > 0 ==> {
                &&& max_y_pos <= current_week_index
                &&& timeseries@[max_y_pos - 1] == max_y
                &&& forall|k: int| 0 <= k < max_y_pos - 1 ==> timeseries@[k] < max_y
            },
        decreases timeseries@.len() - current_week_index,
    {
        let i = current_week_index;
        proof {
            assert(timeseries@.take(i + 1).drop_last() == timeseries@.take(i as int));
            lemma_seq_sum_prefix(timeseries@, i + 1);
        }
        let current_value = timeseries[i];
        if current_value > max_y {
            max_y = current_value;
            max_y_pos = i + 1;
        }
        sum_y += current_value;
        current_week_index += 1;
    }
    proof {
        assert(timeseries@.take(timeseries@.len() as int) == timeseries@);
    }
    SeriesSummary { duration: timeseries.len(), max_y, max_y_pos, sum_y }
}

/// The ascending order on counts.
pub open spec fn ascending(a: usize, b: usize) -> bool {
    a <= b
}

/// The values of a series in ascending order.
pub open spec fn sorted_counts(s: Seq<usize>) -> Seq<usize> {
    s.sort_by(|a: usize, b: usize| ascending(a, b))
}

/// Inserting a value anywhere in a sequence adds it to the sequence's multiset.
proof fn lemma_insert_to_multiset(s: Seq<usize>, p: int, x: usize)
    requires
        0 <= p <= s.len(),
    ensures
        s.insert(p, x).to_multiset() == s.to_multiset().insert(x),
{
    broadcast use vstd::seq_lib::group_to_multiset_ensures;

    let front = s.subrange(0, p);
    let back = s.subrange(p, s.len() as int);
    assert(s == front + back);
    vstd::seq_lib::lemma_multiset_commutative(front, back);
    vstd::seq_lib::lemma_multiset_commutative(front.push(x), back);
    assert(front.push(x).to_multiset() == front.to_multiset().insert(x));
    assert(s.insert(p, x).to_multiset() =~= s.to_multiset().insert(x));
}

/// Sorts counts in ascending order, by insertion: each value goes in after the
/// values already placed that are not greater than it.
fn sort_counts(v: &mut Vec<usize>)
    ensures
        final(v)@.to_multiset() == old(v)@.to_multiset(),
        sorted_by(final(v)@, |a: usize, b: usize| ascending(a, b)),
{
    broadcast use vstd::seq_lib::group_to_multiset_ensures;

    let mut sorted: Vec<usize> = Vec::new();
    let mut i: usize = 0;
    while i < v.len()
        invariant
            i <= v@.len(),
            v@ == old(v)@,
            sorted@.to_multiset() == v@.take(i as int).to_multiset(),
            forall|a: int, b: int| 0 <= a < b < sorted@.len() ==> sorted@[a] <= sorted@[b],
        decreases v@.len() - i,
    {
        let x = v[i];
        let mut p: usize = 0;
        while p < sorted.len() && sorted[p] <= x
            invariant
                p <= sorted@.len(),
                forall|k: int| 0 <= k < p ==> sorted@[k] <= x,
            decreases sorted@.len() - p,
        {
            p += 1;
        }
        let ghost before = sorted@;
        sorted.insert(p, x);
        proof {
            before.insert_ensures(p as int, x);
            lemma_insert_to_multiset(before, p as int, x);
            assert(v@.take(i + 1) == v@.take(i as int).push(x));
            vstd::seq_lib::to_multiset_build(v@.take(i as int), x);
            assert(sorted@ == before.insert(p as int, x));
            assert forall|a: int, b: int| 0 <= a < b < sorted@.len() implies sorted@[a]
                <= sorted@[b] by {
                if b < p {
                } else if b == p {
                } else if a < p {
                    assert(sorted@[b] == before[b - 1]);
                    assert(before[p as int] > x);
                    assert(before[p as int] <= before[b - 1] || p == b - 1);
                } else if a == p {
                    assert(sorted@[b] == before[b - 1]);
                    assert(before[p as int] > x);
                } else {
                    assert(sorted@[a] == before[a - 1]);
                    assert(sorted@[b] == before[b - 1]);
                }
            }
        }
        i += 1;
    }
    proof {
        assert(v@.take(v@.len() as int) == v@);
    }
    *v = sorted;
}

proof fn lemma_ascending_total()
    ensures
        total_ordering(|a: usize, b: usize| ascending(a, b)),
{
}

/// Sorts a series in place: afterwards it holds its values in ascending order.
pub fn sort_series(v: &mut Vec<usize>)
    ensures
        final(v)@ == sorted_counts(old(v)@),
        final(v)@.len() == old(v)@.len(),
{
    let ghost before = v@;
    sort_counts(v);
    proof {
        broadcast use vstd::seq_lib::group_to_multiset_ensures;

        lemma_ascending_total();
        assert(v@.to_multiset().len() == before.to_multiset().len());
        before.lemma_sort_by_ensures(|a: usize, b: usize| ascending(a, b));
        vstd::seq_lib::lemma_sorted_unique(
            v@,
            sorted_counts(before),
            |a: usize, b: usize| ascending(a, b),
        );
    }
}

/// Position of the lower of the two values that a quantile of `quarters` quarters
/// averages in a sorted series of `len` values: `floor((len - 1) * quarters / 4)`.
pub open spec fn quantile_lower_index(len: int, quarters: int) -> int {
    ((len - 1) * quarters) / 4
}

/// Position of the upper one: `ceil((len - 1) * quarters / 4)`.
pub open spec fn quantile_upper_index(len: int, quarters: int) -> int {
    ((len - 1) * quarters + 3) / 4
}

/// Twice the quantile of `quarters` quarters of a sorted series: the sum of the two
/// values around its position.
pub open spec fn quantile_pair_sum(s: Seq<usize>, quarters: int) -> int {
    s[quantile_upper_index(s.len() as int, quarters)] + s[quantile_lower_index(
        s.len() as int,
        quarters,
    )]
}

/// Twice the quantile of `quarters` quarters of a sorted, non-empty series.
pub fn find_quantile_sum(data_set: &Vec<usize>, quarters: usize) -> (sum: usize)
    requires
        data_set@.len() >= 1,
        1 <= quarters <= 3,
        quantile_pair_sum(data_set@, quarters as int) <= usize::MAX,
    ensures
        sum == quantile_pair_sum(data_set@, quarters as int),
{
    let length: u128 = (data_set.len() - 1) as u128;
    proof {
        assert(length * (quarters as u128) <= 3 * 0xffff_ffff_ffff_ffffu128) by (nonlinear_arith)
            requires
                length <= 0xffff_ffff_ffff_ffffu128,
                quarters <= 3,
        ;
    }
    let scaled: u128 = length * (quarters as u128);
    let lower_index = (scaled / 4) as usize;
    let upper_index = ((scaled + 3) / 4) as usize;
    proof {
        let l = data_set@.len() - 1;
        assert(0 <= scaled / 4 <= l) by (nonlinear_arith)
            requires
                scaled == l * quarters,
                1 <= quarters <= 3,
                l >= 0,
        ;
        assert(0 <= (scaled + 3) / 4 <= l) by (nonlinear_arith)
            requires
                scaled == l * quarters,
                1 <= quarters <= 3,
                l >= 0,
        ;
    }
    let upper_value = data_set[upper_index];
    let lower_value = data_set[lower_index];
    upper_value + lower_value
}

/// Twice each quartile of a sorted, non-empty series.
pub open spec fn quartiles_fit(s: Seq<usize>) -> bool {
    &&& quantile_pair_sum(s, 1) <= usize::MAX
    &&& quantile_pair_sum(s, 2) <= usize::MAX
    &&& quantile_pair_sum(s, 3) <= usize::MAX
}

/// Twice the first, second and third quartile of a sorted, non-empty series.
pub fn quartiles(timeseries: &Vec<usize>) -> (r: (usize, usize, usize))
    requires
        timeseries@.len() >= 1,
        quartiles_fit(timeseries@),
    ensures
        r.0 == quantile_pair_sum(timeseries@, 1),
        r.1 == quantile_pair_sum(timeseries@, 2),
        r.2 == quantile_pair_sum(timeseries@, 3),
{
    (find_quantile_sum(timeseries, 1), find_quantile_sum(timeseries, 2), find_quantile_sum(timeseries, 3))
}

/// In a sorted series the quartiles do not decrease: the first is at most the
/// median, which is at most the third.
pub proof fn lemma_quartiles_ordered(s: Seq<usize>)
    requires
        s.len() >= 1,
        sorted_by(s, |a: usize, b: usize| ascending(a, b)),
    ensures
        quantile_pair_sum(s, 1) <= quantile_pair_sum(s, 2) <= quantile_pair_sum(s, 3),
{
    let l = s.len() - 1;
    assert(0 <= (l * 1) / 4 <= (l * 2) / 4 <= (l * 3) / 4 <= l) by (nonlinear_arith)
        requires
            l >= 0,
    ;
    assert(0 <= (l * 1 + 3) / 4 <= (l * 2 + 3) / 4 <= (l * 3 + 3) / 4 <= l) by (nonlinear_arith)
        requires
            l >= 0,
    ;
    let leq = |a: usize, b: usize| ascending(a, b);
    let lo1 = quantile_lower_index(s.len() as int, 1);
    let lo2 = quantile_lower_index(s.len() as int, 2);
    let lo3 = quantile_lower_index(s.len() as int, 3);
    let hi1 = quantile_upper_index(s.len() as int, 1);
    let hi2 = quantile_upper_index(s.len() as int, 2);
    let hi3 = quantile_upper_index(s.len() as int, 3);
    assert(s[lo1] <= s[lo2]) by {
        if lo1 < lo2 {
            assert(leq(s[lo1], s[lo2]));
        }
    }
    assert(s[lo2] <= s[lo3]) by {
        if lo2 < lo3 {
            assert(leq(s[lo2], s[lo3]));
        }
    }
    assert(s[hi1] <= s[hi2]) by {
        if hi1 < hi2 {
            assert(leq(s[hi1], s[hi2]));
        }
    }
    assert(s[hi2] <= s[hi3]) by {
        if hi2 < hi3 {
            assert(leq(s[hi2], s[hi3]));
        }
    }
}

} // verus!
