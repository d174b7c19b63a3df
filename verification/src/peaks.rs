//! Detection of the peaks of a weekly time series, and the features measured
//! between them.

use vstd::prelude::*;
use crate::series::{seq_sum, seq_min, seq_max, MinMaxSum, min_max_sum, sorted_counts, sort_series, quartiles, quartiles_fit, quantile_pair_sum, lemma_seq_sum_nonneg};

verus! {

pub const PEAK_UP: i8 = 1;

pub const PEAK_DOWN: i8 = -1;

pub const PEAK_NONE: i8 = 0;

/// The state of a scan of a series from left to right, after some of its steps
/// (a step compares a value with the one before it).
pub struct PeakScan {
    /// The mark of each position: a peak, a valley, or neither.
    pub marks: Seq<i8>,
    /// The last step that changed the value went up and no peak has closed it yet.
    pub upward_trend: bool,
    /// The last step that changed the value went down and no valley has closed it yet.
    pub downward_trend: bool,
    /// Steps up since the last peak or valley.
    pub current_seq: usize,
    /// The value after the last peak or valley (0 before the first).
    pub previous_gradient_value: usize,
    /// The step that closed the last peak (0 before the first).
    pub last_peak_up: usize,
    /// The step that closed the last valley (0 before the first).
    pub last_peak_down: usize,
    /// The value at the last valley (the first value before the first valley).
    pub last_peak_down_value: usize,
    pub peak_up: usize,
    pub peak_down: usize,
    /// Steps up counted at each peak.
    pub ps_sequence: Seq<usize>,
    /// Steps up counted at each valley.
    pub ns_sequence: Seq<usize>,
    /// The value at each peak.
    pub peak_values: Seq<usize>,
    /// The value at each valley.
    pub valley_values: Seq<usize>,
    /// At each peak, the value after it minus the value after the previous peak or valley.
    pub positive_gradients: Seq<i128>,
    /// At each valley, the value after it minus the value after the previous peak or valley.
    pub negative_gradients: Seq<i128>,
    /// Steps from the previous peak to each peak.
    pub time_between_peaks_up: Seq<usize>,
    /// Steps from the previous valley to each valley.
    pub time_between_peaks_down: Seq<usize>,
    /// At each peak, its value minus the value at the last valley.
    pub amplitudes: Seq<i128>,
}

/// The scan before its first step.
pub open spec fn scan_start(data: Seq<usize>) -> PeakScan {
    PeakScan {
        marks: Seq::new(data.len(), |k: int| PEAK_NONE),
        upward_trend: false,
        downward_trend: false,
        current_seq: 0,
        previous_gradient_value: 0,
        last_peak_up: 0,
        last_peak_down: 0,
        last_peak_down_value: data[0],
        peak_up: 0,
        peak_down: 0,
        ps_sequence: Seq::empty(),
        ns_sequence: Seq::empty(),
        peak_values: Seq::empty(),
        valley_values: Seq::empty(),
        positive_gradients: Seq::empty(),
        negative_gradients: Seq::empty(),
        time_between_peaks_up: Seq::empty(),
        time_between_peaks_down: Seq::empty(),
        amplitudes: Seq::empty(),
    }
}

/// Step `i` of the scan, comparing `data[i - 1]` with `data[i]`. A step up after a
/// fall closes a valley at `i - 1`; a step down after a rise closes a peak at `i - 1`.
pub open spec fn scan_step(s: PeakScan, data: Seq<usize>, i: int) -> PeakScan {
    let previous = data[i - 1];
    let current = data[i];
    if previous < current {
        if s.downward_trend {
            PeakScan {
                marks: s.marks.update(i - 1, PEAK_DOWN),
                upward_trend: true,
                downward_trend: false,
                current_seq: 0,
                previous_gradient_value: current,
                last_peak_down: i as usize,
                last_peak_down_value: previous,
                peak_down: (s.peak_down + 1) as usize,
                ns_sequence: s.ns_sequence.push((s.current_seq + 1) as usize),
                valley_values: s.valley_values.push(previous),
                negative_gradients: s.negative_gradients.push(
                    (current - s.previous_gradient_value) as i128,
                ),
                time_between_peaks_down: s.time_between_peaks_down.push(
                    (i - s.last_peak_down) as usize,
                ),
                ..s
            }
        } else {
            PeakScan { upward_trend: true, current_seq: (s.current_seq + 1) as usize, ..s }
        }
    } else if previous > current {
        if s.upward_trend {
            PeakScan {
                marks: s.marks.update(i - 1, PEAK_UP),
                upward_trend: false,
                downward_trend: true,
                current_seq: 0,
                previous_gradient_value: current,
                last_peak_up: i as usize,
                peak_up: (s.peak_up + 1) as usize,
                ps_sequence: s.ps_sequence.push(s.current_seq),
                peak_values: s.peak_values.push(previous),
                positive_gradients: s.positive_gradients.push(
                    (current - s.previous_gradient_value) as i128,
                ),
                time_between_peaks_up: s.time_between_peaks_up.push((i - s.last_peak_up) as usize),
                amplitudes: s.amplitudes.push((previous - s.last_peak_down_value) as i128),
                ..s
            }
        } else {
            PeakScan { downward_trend: true, ..s }
        }
    } else {
        s
    }
}

/// The scan after its steps up to (not including) `i`.
pub open spec fn scan_until(data: Seq<usize>, i: int) -> PeakScan
    decreases i,
{
    if i <= 1 {
        scan_start(data)
    } else {
        scan_step(scan_until(data, i - 1), data, i - 1)
    }
}

/// The complete scan of a series: after its last step, the steps up since the last
/// peak or valley are counted as a valley's when the series was still rising, and
/// as a peak's otherwise.
pub open spec fn peak_scan(data: Seq<usize>) -> PeakScan {
    let s = scan_until(data, data.len() as int);
    if s.upward_trend {
        PeakScan { ns_sequence: s.ns_sequence.push(s.current_seq), ..s }
    } else {
        PeakScan { ps_sequence: s.ps_sequence.push(s.current_seq), ..s }
    }
}

/// Facts that hold of the scan after each of its steps: its counters stay within
/// the number of steps taken, and its lists grow one entry per peak or valley.
pub proof fn lemma_scan_bounds(data: Seq<usize>, i: int)
    requires
        1 <= i <= data.len(),
        data.len() <= usize::MAX,
    ensures
        ({
            let s = scan_until(data, i);
            &&& s.marks.len() == data.len()
            &&& s.current_seq + seq_sum(s.ps_sequence) + seq_sum(s.ns_sequence) <= i - 1
            &&& seq_sum(s.time_between_peaks_up) == s.last_peak_up
            &&& seq_sum(s.time_between_peaks_down) == s.last_peak_down
            &&& s.last_peak_up <= i - 1
            &&& s.last_peak_down <= i - 1
            &&& s.peak_up + s.peak_down <= i - 1
            &&& s.ps_sequence.len() == s.peak_up
            &&& s.ns_sequence.len() == s.peak_down
            &&& s.peak_values.len() == s.peak_up
            &&& s.valley_values.len() == s.peak_down
            &&& s.positive_gradients.len() == s.peak_up
            &&& s.negative_gradients.len() == s.peak_down
            &&& s.time_between_peaks_up.len() == s.peak_up
            &&& s.time_between_peaks_down.len() == s.peak_down
            &&& s.amplitudes.len() == s.peak_up
        }),
    decreases i,
{
    if i > 1 {
        lemma_scan_bounds(data, i - 1);
        let p = scan_until(data, i - 1);
        lemma_seq_sum_nonneg(p.ps_sequence);
        lemma_seq_sum_nonneg(p.ns_sequence);
        assert(p.ps_sequence.push(p.current_seq).drop_last() == p.ps_sequence);
        assert(p.ns_sequence.push((p.current_seq + 1) as usize).drop_last() == p.ns_sequence);
        assert(p.time_between_peaks_up.push((i - 1 - p.last_peak_up) as usize).drop_last()
            == p.time_between_peaks_up);
        assert(p.time_between_peaks_down.push((i - 1 - p.last_peak_down) as usize).drop_last()
            == p.time_between_peaks_down);
    }
}

/// What the scan of a series measures.
pub struct PeakFeatures {
    pub peak_up: usize,
    pub peak_down: usize,
    /// Positions that are neither a peak nor a valley.
    pub peak_none: usize,
    pub ps_sequence: Vec<usize>,
    pub ns_sequence: Vec<usize>,
    pub peak_values: Vec<usize>,
    pub valley_values: Vec<usize>,
    pub positive_gradients: Vec<i128>,
    pub negative_gradients: Vec<i128>,
    pub time_between_peaks_up: Vec<usize>,
    pub time_between_peaks_down: Vec<usize>,
    pub amplitudes: Vec<i128>,
    /// Minimum, maximum and sum of the steps up counted at peaks.
    pub ps: MinMaxSum,
    /// Minimum, maximum and sum of the steps up counted at valleys.
    pub ns: MinMaxSum,
    /// Minimum, maximum and sum of the times between peaks.
    pub tbp_up: MinMaxSum,
    /// Twice the first, second and third quartile of the series.
    pub quartile_sums: (usize, usize, usize),
}

/// The features that the scan of `data` gives, with the quartiles of `sorted`.
pub open spec fn features_of_scan(f: PeakFeatures, data: Seq<usize>, sorted: Seq<usize>) -> bool {
    let s = peak_scan(data);
    &&& f.peak_up == s.peak_up
    &&& f.peak_down == s.peak_down
    &&& f.peak_none == data.len() - s.peak_up - s.peak_down
    &&& f.ps_sequence@ == s.ps_sequence
    &&& f.ns_sequence@ == s.ns_sequence
    &&& f.peak_values@ == s.peak_values
    &&& f.valley_values@ == s.valley_values
    &&& f.positive_gradients@ == s.positive_gradients
    &&& f.negative_gradients@ == s.negative_gradients
    &&& f.time_between_peaks_up@ == s.time_between_peaks_up
    &&& f.time_between_peaks_down@ == s.time_between_peaks_down
    &&& f.amplitudes@ == s.amplitudes
    &&& f.ps.min == seq_min(s.ps_sequence) && f.ps.max == seq_max(s.ps_sequence) && f.ps.sum
        == seq_sum(s.ps_sequence)
    &&& f.ns.min == seq_min(s.ns_sequence) && f.ns.max == seq_max(s.ns_sequence) && f.ns.sum
        == seq_sum(s.ns_sequence)
    &&& f.tbp_up.min == seq_min(s.time_between_peaks_up) && f.tbp_up.max == seq_max(
        s.time_between_peaks_up,
    ) && f.tbp_up.sum == seq_sum(s.time_between_peaks_up)
    &&& f.quartile_sums == (
        quantile_pair_sum(sorted, 1) as usize,
        quantile_pair_sum(sorted, 2) as usize,
        quantile_pair_sum(sorted, 3) as usize,
    )
}

/// Detects the peaks and valleys of a series and measures the features between them.
///
/// A series of fewer than two values has neither: every mark is `PEAK_NONE`, no
/// features are measured and the series is left as it is. Otherwise the marks and
/// features are those of the scan of the series, and the series is sorted in place
/// (its quartiles are taken from the sorted values). Stated over the series: the
/// times between peaks (and between valleys) are the distances between successive
/// peaks (valleys); each gradient is the value after its peak or valley minus the
/// value after the one before; each amplitude is a peak's value minus that of the
/// last valley before it; and the step sequences count the steps up between
/// successive peaks and valleys, the steps up after the last one going to the
/// valleys' sequence when the series ends rising, to the peaks' otherwise.
pub fn detect_peaks_and_set_features(data_set: &mut Vec<usize>) -> (result: (
    Vec<i8>,
    Option<PeakFeatures>,
))
    requires
        old(data_set)@.len() > 1 ==> quartiles_fit(sorted_counts(old(data_set)@)),
    ensures
        old(data_set)@.len() <= 1 ==> {
            &&& result.0@ == Seq::new(old(data_set)@.len(), |k: int| PEAK_NONE)
            &&& result.1 is None
            &&& final(data_set)@ == old(data_set)@
        },
        old(data_set)@.len() > 1 ==> {
            &&& result.0@ == peak_scan(old(data_set)@).marks
            &&& result.0@.len() == old(data_set)@.len()
            &&& forall|k: int|
                0 <= k < old(data_set)@.len() ==> #[trigger] result.0@[k] == expected_mark(
                    old(data_set)@,
                    k,
                )
            &&& result.1 is Some
            &&& result.1->0.peak_up == count_marks(result.0@, PEAK_UP)
            &&& result.1->0.peak_down == count_marks(result.0@, PEAK_DOWN)
            &&& result.1->0.peak_none == count_marks(result.0@, PEAK_NONE)
            &&& result.1->0.peak_values@ == values_at_marks(
                old(data_set)@,
                PEAK_UP,
                old(data_set)@.len() - 1,
            )
            &&& result.1->0.valley_values@ == values_at_marks(
                old(data_set)@,
                PEAK_DOWN,
                old(data_set)@.len() - 1,
            )
            &&& result.1->0.time_between_peaks_up@ == mark_gaps(
                old(data_set)@,
                PEAK_UP,
                old(data_set)@.len() - 1,
            )
            &&& result.1->0.time_between_peaks_down@ == mark_gaps(
                old(data_set)@,
                PEAK_DOWN,
                old(data_set)@.len() - 1,
            )
            &&& result.1->0.positive_gradients@ == mark_gradients(
                old(data_set)@,
                PEAK_UP,
                old(data_set)@.len() - 1,
            )
            &&& result.1->0.negative_gradients@ == mark_gradients(
                old(data_set)@,
                PEAK_DOWN,
                old(data_set)@.len() - 1,
            )
            &&& result.1->0.amplitudes@ == peak_amplitudes(old(data_set)@, old(data_set)@.len() - 1)
            &&& result.1->0.ps_sequence@ == if rises_before(old(data_set)@, old(data_set)@.len() - 1) {
                mark_rises(old(data_set)@, PEAK_UP, old(data_set)@.len() - 1)
            } else {
                mark_rises(old(data_set)@, PEAK_UP, old(data_set)@.len() - 1).push(
                    trailing_rises(old(data_set)@),
                )
            }
            &&& result.1->0.ns_sequence@ == if rises_before(old(data_set)@, old(data_set)@.len() - 1) {
                mark_rises(old(data_set)@, PEAK_DOWN, old(data_set)@.len() - 1).push(
                    trailing_rises(old(data_set)@),
                )
            } else {
                mark_rises(old(data_set)@, PEAK_DOWN, old(data_set)@.len() - 1)
            }
            &&& features_of_scan(result.1->0, old(data_set)@, final(data_set)@)
            &&& final(data_set)@ == sorted_counts(old(data_set)@)
        },
{
    let array_length = data_set.len();
    let mut return_vector: Vec<i8> = Vec::new();
    while return_vector.len() < array_length
        invariant
            return_vector@.len() <= array_length,
            forall|k: int| 0 <= k < return_vector@.len() ==> return_vector@[k] == PEAK_NONE,
        decreases array_length - return_vector@.len(),
    {
        return_vector.push(PEAK_NONE);
    }
    proof {
        assert(return_vector@ =~= Seq::new(array_length as nat, |k: int| PEAK_NONE));
    }
    if array_length <= 1 {
        return (return_vector, None);
    }
    let ghost data = data_set@;
    let mut upward_trend = false;
    let mut downward_trend = false;
    let mut current_seq: usize = 0;
    let mut previous_gradient_value: usize = 0;
    let mut last_peak_up: usize = 0;
    let mut last_peak_down: usize = 0;
    let mut last_peak_down_value: usize = data_set[0];
    let mut peak_up: usize = 0;
    let mut peak_down: usize = 0;
    let mut peak_none: usize = array_length;
    let mut ps_sequence: Vec<usize> = Vec::new();
    let mut ns_sequence: Vec<usize> = Vec::new();
    let mut peak_values: Vec<usize> = Vec::new();
    let mut valley_values: Vec<usize> = Vec::new();
    let mut positive_gradients: Vec<i128> = Vec::new();
    let mut negative_gradients: Vec<i128> = Vec::new();
    let mut time_between_peaks_up: Vec<usize> = Vec::new();
    let mut time_between_peaks_down: Vec<usize> = Vec::new();
    let mut amplitudes: Vec<i128> = Vec::new();
    let mut index: usize = 1;
    while index < array_length
        invariant
            1 <= index <= array_length,
            array_length == data.len(),
            data == data_set@,
            ({
                let s = scan_until(data, index as int);
                &&& return_vector@ == s.marks
                &&& upward_trend == s.upward_trend
                &&& downward_trend == s.downward_trend
                &&& current_seq == s.current_seq
                &&& previous_gradient_value == s.previous_gradient_value
                &&& last_peak_up == s.last_peak_up
                &&& last_peak_down == s.last_peak_down
                &&& last_peak_down_value == s.last_peak_down_value
                &&& peak_up == s.peak_up
                &&& peak_down == s.peak_down
                &&& ps_sequence@ == s.ps_sequence
                &&& ns_sequence@ == s.ns_sequence
                &&& peak_values@ == s.peak_values
                &&& valley_values@ == s.valley_values
                &&& positive_gradients@ == s.positive_gradients
                &&& negative_gradients@ == s.negative_gradients
                &&& time_between_peaks_up@ == s.time_between_peaks_up
                &&& time_between_peaks_down@ == s.time_between_peaks_down
                &&& amplitudes@ == s.amplitudes
            }),
            peak_none == array_length - peak_up - peak_down,
        decreases array_length - index,
    {
        proof {
            lemma_scan_bounds(data, index as int);
            let s = scan_until(data, index as int);
            lemma_seq_sum_nonneg(s.ps_sequence);
            lemma_seq_sum_nonneg(s.ns_sequence);
        }
        let previous = data_set[index - 1];
        let current = data_set[index];
        if previous < current {
            if downward_trend {
                return_vector.set(index - 1, PEAK_DOWN);
                last_peak_down_value = previous;
                peak_down += 1;
                peak_none -= 1;
                ns_sequence.push(current_seq + 1);
                valley_values.push(previous);
                negative_gradients.push(current as i128 - previous_gradient_value as i128);
                previous_gradient_value = current;
                current_seq = 0;
                time_between_peaks_down.push(index - last_peak_down);
                last_peak_down = index;
                downward_trend = false;
            } else {
                current_seq += 1;
            }
            upward_trend = true;
        } else if previous > current {
            if upward_trend {
                amplitudes.push(previous as i128 - last_peak_down_value as i128);
                return_vector.set(index - 1, PEAK_UP);
                peak_values.push(previous);
                peak_up += 1;
                peak_none -= 1;
                ps_sequence.push(current_seq);
                positive_gradients.push(current as i128 - previous_gradient_value as i128);
                previous_gradient_value = current;
                current_seq = 0;
                time_between_peaks_up.push(index - last_peak_up);
                last_peak_up = index;
                upward_trend = false;
            }
            downward_trend = true;
        }
        index += 1;
    }
    proof {
        lemma_scan_bounds(data, array_length as int);
        let s = scan_until(data, array_length as int);
        lemma_seq_sum_nonneg(s.ps_sequence);
        lemma_seq_sum_nonneg(s.ns_sequence);
        assert(s.ps_sequence.push(s.current_seq).drop_last() == s.ps_sequence);
        assert(s.ns_sequence.push(s.current_seq).drop_last() == s.ns_sequence);
    }
    if upward_trend {
        ns_sequence.push(current_seq);
    } else {
        ps_sequence.push(current_seq);
    }
    let ps = min_max_sum(&ps_sequence);
    let ns = min_max_sum(&ns_sequence);
    let tbp_up = min_max_sum(&time_between_peaks_up);

    proof {
        lemma_scan_marks(data, array_length as int);
        lemma_scan_history(data, array_length as int);
        lemma_peak_counts_match_marks(data);
        lemma_peak_values_are_values_at_peaks(data);
    }
    sort_series(data_set);
    let quartile_sums = quartiles(data_set);
    (
        return_vector,
        Some(
            PeakFeatures {
                peak_up,
                peak_down,
                peak_none,
                ps_sequence,
                ns_sequence,
                peak_values,
                valley_values,
                positive_gradients,
                negative_gradients,
                time_between_peaks_up,
                time_between_peaks_down,
                amplitudes,
                ps,
                ns,
                tbp_up,
                quartile_sums,
            },
        ),
    )
}

/// Among the steps before position `k` (the comparisons of `data[j]` with
/// `data[j + 1]` for `j < k`), the last one that changes the value goes up.
pub open spec fn rises_before(data: Seq<usize>, k: int) -> bool {
    exists|j: int|
        #![trigger data[j]]
        0 <= j < k && data[j] < data[j + 1] && forall|m: int|
            j < m < k ==> #[trigger] data[m] == data[m + 1]
}

/// Among the steps before position `k`, the last one that changes the value goes down.
pub open spec fn falls_before(data: Seq<usize>, k: int) -> bool {
    exists|j: int|
        #![trigger data[j]]
        0 <= j < k && data[j] > data[j + 1] && forall|m: int|
            j < m < k ==> #[trigger] data[m] == data[m + 1]
}

/// Position `k` ends a plateau that the series rose to and falls from.
pub open spec fn is_peak(data: Seq<usize>, k: int) -> bool {
    &&& 0 <= k
    &&& k + 1 < data.len()
    &&& data[k] > data[k + 1]
    &&& rises_before(data, k)
}

/// Position `k` ends a plateau that the series fell to and rises from.
pub open spec fn is_valley(data: Seq<usize>, k: int) -> bool {
    &&& 0 <= k
    &&& k + 1 < data.len()
    &&& data[k] < data[k + 1]
    &&& falls_before(data, k)
}

/// The mark that a position deserves.
pub open spec fn expected_mark(data: Seq<usize>, k: int) -> i8 {
    if is_peak(data, k) {
        PEAK_UP
    } else if is_valley(data, k) {
        PEAK_DOWN
    } else {
        PEAK_NONE
    }
}

/// How the trend before a position follows from the trend before the previous one.
proof fn lemma_trend_step(data: Seq<usize>, i: int)
    requires
        1 <= i < data.len(),
    ensures
        rises_before(data, i) <==> (data[i - 1] < data[i] || (data[i - 1] == data[i]
            && rises_before(data, i - 1))),
        falls_before(data, i) <==> (data[i - 1] > data[i] || (data[i - 1] == data[i]
            && falls_before(data, i - 1))),
{
    if rises_before(data, i) {
        let j = choose|j: int|
            #![trigger data[j]]
            0 <= j < i && data[j] < data[j + 1] && forall|m: int|
                j < m < i ==> #[trigger] data[m] == data[m + 1];
        if j < i - 1 {
            assert(data[i - 1] == data[i - 1 + 1]);
            assert forall|m: int| j < m < i - 1 implies #[trigger] data[m] == data[m + 1] by {}
        }
    }
    if data[i - 1] < data[i] {
        assert forall|m: int| i - 1 < m < i implies #[trigger] data[m] == data[m + 1] by {}
        assert(rises_before(data, i));
    }
    if data[i - 1] == data[i] && rises_before(data, i - 1) {
        let j = choose|j: int|
            #![trigger data[j]]
            0 <= j < i - 1 && data[j] < data[j + 1] && forall|m: int|
                j < m < i - 1 ==> #[trigger] data[m] == data[m + 1];
        assert forall|m: int| j < m < i implies #[trigger] data[m] == data[m + 1] by {
            if m < i - 1 {
            } else {
                assert(m == i - 1);
            }
        }
        assert(rises_before(data, i));
    }
    if falls_before(data, i) {
        let j = choose|j: int|
            #![trigger data[j]]
            0 <= j < i && data[j] > data[j + 1] && forall|m: int|
                j < m < i ==> #[trigger] data[m] == data[m + 1];
        if j < i - 1 {
            assert(data[i - 1] == data[i - 1 + 1]);
            assert forall|m: int| j < m < i - 1 implies #[trigger] data[m] == data[m + 1] by {}
        }
    }
    if data[i - 1] > data[i] {
        assert forall|m: int| i - 1 < m < i implies #[trigger] data[m] == data[m + 1] by {}
        assert(falls_before(data, i));
    }
    if data[i - 1] == data[i] && falls_before(data, i - 1) {
        let j = choose|j: int|
            #![trigger data[j]]
            0 <= j < i - 1 && data[j] > data[j + 1] && forall|m: int|
                j < m < i - 1 ==> #[trigger] data[m] == data[m + 1];
        assert forall|m: int| j < m < i implies #[trigger] data[m] == data[m + 1] by {
            if m < i - 1 {
            } else {
                assert(m == i - 1);
            }
        }
        assert(falls_before(data, i));
    }
}

/// After the steps before `i`, the scan's trends are those of the series, and it
/// has marked exactly the peaks and valleys that those steps reveal.
proof fn lemma_scan_marks(data: Seq<usize>, i: int)
    requires
        1 <= i <= data.len(),
        data.len() <= usize::MAX,
    ensures
        scan_until(data, i).upward_trend == rises_before(data, i - 1),
        scan_until(data, i).downward_trend == falls_before(data, i - 1),
        scan_until(data, i).marks.len() == data.len(),
        forall|k: int|
            0 <= k < data.len() ==> #[trigger] scan_until(data, i).marks[k] == if k < i - 1 {
                expected_mark(data, k)
            } else {
                PEAK_NONE
            },
    decreases i,
{
    if i == 1 {
        assert(!rises_before(data, 0));
        assert(!falls_before(data, 0));
    } else {
        lemma_scan_marks(data, i - 1);
        lemma_trend_step(data, i - 1);
        lemma_scan_bounds(data, i - 1);
    }
}

/// The marks of a series of at least two values are its peaks and valleys: a peak
/// where the series falls from a plateau it rose to, a valley where it rises from a
/// plateau it fell to.
pub proof fn lemma_marks_are_peaks_and_valleys(data: Seq<usize>, k: int)
    requires
        2 <= data.len() <= usize::MAX,
        0 <= k < data.len(),
    ensures
        peak_scan(data).marks[k] == expected_mark(data, k),
{
    lemma_scan_marks(data, data.len() as int);
}

/// Number of positions that carry the mark `m`.
pub open spec fn count_marks(marks: Seq<i8>, m: i8) -> nat
    decreases marks.len(),
{
    if marks.len() == 0 {
        0
    } else {
        count_marks(marks.drop_last(), m) + if marks.last() == m {
            1nat
        } else {
            0nat
        }
    }
}

proof fn lemma_count_marks_update(marks: Seq<i8>, k: int, v: i8, m: i8)
    requires
        0 <= k < marks.len(),
        marks[k] == PEAK_NONE,
        v != PEAK_NONE,
    ensures
        count_marks(marks.update(k, v), m) == count_marks(marks, m) + if m == v {
            1int
        } else if m == PEAK_NONE {
            -1int
        } else {
            0int
        },
    decreases marks.len(),
{
    let u = marks.update(k, v);
    if k == marks.len() - 1 {
        assert(u.drop_last() == marks.drop_last());
    } else {
        assert(u.drop_last() == marks.drop_last().update(k, v));
        lemma_count_marks_update(marks.drop_last(), k, v, m);
    }
}

proof fn lemma_none_marks(n: nat)
    ensures
        count_marks(Seq::new(n, |k: int| PEAK_NONE), PEAK_NONE) == n,
        count_marks(Seq::new(n, |k: int| PEAK_NONE), PEAK_UP) == 0,
        count_marks(Seq::new(n, |k: int| PEAK_NONE), PEAK_DOWN) == 0,
    decreases n,
{
    if n > 0 {
        lemma_none_marks((n - 1) as nat);
        assert(Seq::new(n, |k: int| PEAK_NONE).drop_last() == Seq::new(
            (n - 1) as nat,
            |k: int| PEAK_NONE,
        ));
    }
}

proof fn lemma_scan_counts(data: Seq<usize>, i: int)
    requires
        1 <= i <= data.len(),
        data.len() <= usize::MAX,
    ensures
        scan_until(data, i).peak_up == count_marks(scan_until(data, i).marks, PEAK_UP),
        scan_until(data, i).peak_down == count_marks(scan_until(data, i).marks, PEAK_DOWN),
        data.len() - scan_until(data, i).peak_up - scan_until(data, i).peak_down == count_marks(
            scan_until(data, i).marks,
            PEAK_NONE,
        ),
    decreases i,
{
    if i == 1 {
        lemma_none_marks(data.len());
    } else {
        lemma_scan_counts(data, i - 1);
        lemma_scan_marks(data, i - 1);
        lemma_scan_bounds(data, i - 1);
        let p = scan_until(data, i - 1);
        if data[i - 2] < data[i - 1] && p.downward_trend {
            lemma_count_marks_update(p.marks, i - 2, PEAK_DOWN, PEAK_UP);
            lemma_count_marks_update(p.marks, i - 2, PEAK_DOWN, PEAK_DOWN);
            lemma_count_marks_update(p.marks, i - 2, PEAK_DOWN, PEAK_NONE);
        }
        if data[i - 2] > data[i - 1] && p.upward_trend {
            lemma_count_marks_update(p.marks, i - 2, PEAK_UP, PEAK_UP);
            lemma_count_marks_update(p.marks, i - 2, PEAK_UP, PEAK_DOWN);
            lemma_count_marks_update(p.marks, i - 2, PEAK_UP, PEAK_NONE);
        }
    }
}

/// The peak, valley and plain counts of a scan are the numbers of positions marked
/// as such.
pub proof fn lemma_peak_counts_match_marks(data: Seq<usize>)
    requires
        2 <= data.len() <= usize::MAX,
    ensures
        peak_scan(data).peak_up == count_marks(peak_scan(data).marks, PEAK_UP),
        peak_scan(data).peak_down == count_marks(peak_scan(data).marks, PEAK_DOWN),
        data.len() - peak_scan(data).peak_up - peak_scan(data).peak_down == count_marks(
            peak_scan(data).marks,
            PEAK_NONE,
        ),
{
    lemma_scan_counts(data, data.len() as int);
}

/// The values of `data` at the positions before `n` whose expected mark is `m`, in order.
pub open spec fn values_at_marks(data: Seq<usize>, m: i8, n: int) -> Seq<usize>
    decreases n,
{
    if n <= 0 {
        Seq::empty()
    } else {
        let before = values_at_marks(data, m, n - 1);
        if expected_mark(data, n - 1) == m {
            before.push(data[n - 1])
        } else {
            before
        }
    }
}

proof fn lemma_scan_values(data: Seq<usize>, i: int)
    requires
        1 <= i <= data.len(),
        data.len() <= usize::MAX,
    ensures
        scan_until(data, i).peak_values == values_at_marks(data, PEAK_UP, i - 1),
        scan_until(data, i).valley_values == values_at_marks(data, PEAK_DOWN, i - 1),
    decreases i,
{
    if i > 1 {
        lemma_scan_values(data, i - 1);
        lemma_scan_marks(data, i);
        lemma_scan_marks(data, i - 1);
        let p = scan_until(data, i - 1);
        let s = scan_until(data, i);
        assert(s.marks[i - 2] == expected_mark(data, i - 2));
        if data[i - 2] < data[i - 1] && p.downward_trend {
            assert(s.marks[i - 2] == PEAK_DOWN);
        } else if data[i - 2] > data[i - 1] && p.upward_trend {
            assert(s.marks[i - 2] == PEAK_UP);
        } else {
            assert(s.marks[i - 2] == p.marks[i - 2]);
        }
    }
}

/// The values recorded at peaks and at valleys are the values of the series at its
/// peaks and at its valleys, in order.
pub proof fn lemma_peak_values_are_values_at_peaks(data: Seq<usize>)
    requires
        2 <= data.len() <= usize::MAX,
    ensures
        peak_scan(data).peak_values == values_at_marks(data, PEAK_UP, data.len() - 1),
        peak_scan(data).valley_values == values_at_marks(data, PEAK_DOWN, data.len() - 1),
{
    lemma_scan_values(data, data.len() as int);
}

/// The last position before `n` whose expected mark is `m`, or -1 where there is none.
pub open spec fn last_mark_before(data: Seq<usize>, m: i8, n: int) -> int
    decreases n,
{
    if n <= 0 {
        -1
    } else if expected_mark(data, n - 1) == m {
        n - 1
    } else {
        last_mark_before(data, m, n - 1)
    }
}

/// The last position before `n` that is a peak or a valley, or -1 where there is none.
pub open spec fn last_turn_before(data: Seq<usize>, n: int) -> int
    decreases n,
{
    if n <= 0 {
        -1
    } else if expected_mark(data, n - 1) != PEAK_NONE {
        n - 1
    } else {
        last_turn_before(data, n - 1)
    }
}

/// Number of steps up among the steps from position `a` to position `b`: the `j` with
/// `a <= j < b` and `data[j] < data[j + 1]`.
pub open spec fn rises_between(data: Seq<usize>, a: int, b: int) -> nat
    decreases b - a,
{
    if b <= a {
        0
    } else {
        rises_between(data, a, b - 1) + if data[b - 1] < data[b] {
            1nat
        } else {
            0nat
        }
    }
}

/// The value right after the last peak or valley before `n`, or 0 where there is none.
pub open spec fn value_after_turn(data: Seq<usize>, n: int) -> usize {
    let t = last_turn_before(data, n);
    if t < 0 {
        0
    } else {
        data[t + 1]
    }
}

/// The value at the last valley before `n`, or the first value where there is none.
pub open spec fn valley_value_before(data: Seq<usize>, n: int) -> usize {
    let v = last_mark_before(data, PEAK_DOWN, n);
    if v < 0 {
        data[0]
    } else {
        data[v]
    }
}

/// For each position before `n` marked `m`, in order: its distance from the previous
/// position marked `m`, the first one counted from position -1.
pub open spec fn mark_gaps(data: Seq<usize>, m: i8, n: int) -> Seq<usize>
    decreases n,
{
    if n <= 0 {
        Seq::empty()
    } else {
        let before = mark_gaps(data, m, n - 1);
        if expected_mark(data, n - 1) == m {
            before.push((n - 1 - last_mark_before(data, m, n - 1)) as usize)
        } else {
            before
        }
    }
}

/// For each position `k` before `n` marked `m`, in order: the value after it minus the
/// value after the previous peak or valley (0 before the first).
pub open spec fn mark_gradients(data: Seq<usize>, m: i8, n: int) -> Seq<i128>
    decreases n,
{
    if n <= 0 {
        Seq::empty()
    } else {
        let before = mark_gradients(data, m, n - 1);
        if expected_mark(data, n - 1) == m {
            before.push((data[n] - value_after_turn(data, n - 1)) as i128)
        } else {
            before
        }
    }
}

/// For each position `k` before `n` marked `m`, in order: the number of steps up from
/// the position after the previous peak or valley to `k`, the step from `k` included.
pub open spec fn mark_rises(data: Seq<usize>, m: i8, n: int) -> Seq<usize>
    decreases n,
{
    if n <= 0 {
        Seq::empty()
    } else {
        let before = mark_rises(data, m, n - 1);
        if expected_mark(data, n - 1) == m {
            before.push(rises_between(data, last_turn_before(data, n - 1) + 1, n) as usize)
        } else {
            before
        }
    }
}

/// For each peak before `n`, in order: its value minus the value at the last valley
/// before it (the first value where there is none).
pub open spec fn peak_amplitudes(data: Seq<usize>, n: int) -> Seq<i128>
    decreases n,
{
    if n <= 0 {
        Seq::empty()
    } else {
        let before = peak_amplitudes(data, n - 1);
        if expected_mark(data, n - 1) == PEAK_UP {
            before.push((data[n - 1] - valley_value_before(data, n - 1)) as i128)
        } else {
            before
        }
    }
}

/// The steps up after the last peak or valley of a series, to its end.
pub open spec fn trailing_rises(data: Seq<usize>) -> usize {
    rises_between(data, last_turn_before(data, data.len() - 1) + 1, data.len() - 1) as usize
}

proof fn lemma_last_before_range(data: Seq<usize>, m: i8, n: int)
    requires
        n >= 0,
    ensures
        -1 <= last_mark_before(data, m, n) < n,
        -1 <= last_turn_before(data, n) < n,
        last_mark_before(data, m, n) <= last_turn_before(data, n) || m == PEAK_NONE,
    decreases n,
{
    if n > 0 {
        lemma_last_before_range(data, m, n - 1);
    }
}

/// After the steps before `i`, what the scan remembers of the peaks and valleys that
/// those steps reveal, stated over the series itself.
#[verifier::rlimit(60)]
proof fn lemma_scan_history(data: Seq<usize>, i: int)
    requires
        1 <= i <= data.len(),
        data.len() <= usize::MAX,
    ensures
        ({
            let s = scan_until(data, i);
            &&& s.last_peak_up == last_mark_before(data, PEAK_UP, i - 1) + 1
            &&& s.last_peak_down == last_mark_before(data, PEAK_DOWN, i - 1) + 1
            &&& s.last_peak_down_value == valley_value_before(data, i - 1)
            &&& s.previous_gradient_value == value_after_turn(data, i - 1)
            &&& s.current_seq == rises_between(data, last_turn_before(data, i - 1) + 1, i - 1)
            &&& s.time_between_peaks_up == mark_gaps(data, PEAK_UP, i - 1)
            &&& s.time_between_peaks_down == mark_gaps(data, PEAK_DOWN, i - 1)
            &&& s.positive_gradients == mark_gradients(data, PEAK_UP, i - 1)
            &&& s.negative_gradients == mark_gradients(data, PEAK_DOWN, i - 1)
            &&& s.ps_sequence == mark_rises(data, PEAK_UP, i - 1)
            &&& s.ns_sequence == mark_rises(data, PEAK_DOWN, i - 1)
            &&& s.amplitudes == peak_amplitudes(data, i - 1)
        }),
    decreases i,
{
    if i > 1 {
        let k = i - 2;
        lemma_scan_history(data, i - 1);
        lemma_scan_marks(data, i);
        lemma_scan_marks(data, i - 1);
        lemma_scan_bounds(data, i - 1);
        lemma_last_before_range(data, PEAK_UP, k);
        lemma_last_before_range(data, PEAK_DOWN, k);
        let p = scan_until(data, i - 1);
        let s = scan_until(data, i);
        assert(s.marks[k] == expected_mark(data, k));
        assert(p.marks[k] == PEAK_NONE);
        if data[k] < data[k + 1] && p.downward_trend {
            assert(s.marks[k] == PEAK_DOWN);
            assert(last_turn_before(data, k + 1) == k);
            assert(rises_between(data, k + 1, k + 1) == 0);
        } else if data[k] > data[k + 1] && p.upward_trend {
            assert(s.marks[k] == PEAK_UP);
            assert(last_turn_before(data, k + 1) == k);
            assert(rises_between(data, k + 1, k + 1) == 0);
        } else {
            assert(s.marks[k] == p.marks[k]);
            let lt = last_turn_before(data, k);
            assert(last_turn_before(data, k + 1) == lt);
            assert(rises_between(data, lt + 1, k + 1) == rises_between(data, lt + 1, k) + if data[k]
                < data[k + 1] {
                1nat
            } else {
                0nat
            });
            assert(p.current_seq == rises_between(data, lt + 1, k));
            if data[k] < data[k + 1] {
                lemma_seq_sum_nonneg(p.ps_sequence);
                lemma_seq_sum_nonneg(p.ns_sequence);
                assert(!p.downward_trend);
                assert(s.current_seq == p.current_seq + 1);
            } else {
                assert(s.current_seq == p.current_seq);
            }
        }
    }
}

} // verus!
