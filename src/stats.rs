//! The order-statistics engine: mean, median, quartiles, minimum and maximum of
//! each position column of decoded quality scores.

use crate::error::QcError;
use rdxsort::RdxSort;
use vstd::prelude::*;
use vstd::relations::{sorted_by, total_ordering};

verus! {

/// The ascending order on quality values.
pub open spec fn u32_leq() -> spec_fn(u32, u32) -> bool {
    |a: u32, b: u32| a <= b
}

/// The column in ascending order.
pub open spec fn sorted_column(col: Seq<u32>) -> Seq<u32> {
    col.sort_by(u32_leq())
}

/// The ascending order is total.
pub proof fn lemma_u32_leq_total()
    ensures
        total_ordering(u32_leq()),
{
}

/// `sorted_column` keeps the elements and puts them in order; it is the only
/// ascending arrangement of them.
pub proof fn lemma_sorted_column(col: Seq<u32>)
    ensures
        sorted_column(col).to_multiset() == col.to_multiset(),
        sorted_column(col).len() == col.len(),
        sorted_by(sorted_column(col), u32_leq()),
        forall|s: Seq<u32>|
            sorted_by(s, u32_leq()) && #[trigger] s.to_multiset() == col.to_multiset()
                ==> s == sorted_column(col),
{
    lemma_u32_leq_total();
    col.lemma_sort_by_ensures(u32_leq());
    broadcast use vstd::seq_lib::group_to_multiset_ensures;
    assert(sorted_column(col).to_multiset().len() == col.to_multiset().len());
    assert forall|s: Seq<u32>|
        sorted_by(s, u32_leq()) && #[trigger] s.to_multiset() == col.to_multiset()
            implies s == sorted_column(col) by {
        vstd::seq_lib::lemma_sorted_unique(s, sorted_column(col), u32_leq());
    }
}

/// Relies on rdxsort's `RdxSort::rdxsort` on a slice of `u32`: a radix sort in
/// place that leaves the same values in ascending order.
#[verifier::external_body]
fn radix_sort(v: &mut Vec<u32>)
    ensures
        final(v)@.to_multiset() == old(v)@.to_multiset(),
        sorted_by(final(v)@, u32_leq()),
{
    v.as_mut_slice().rdxsort();
}

/// Sorts a column in place.
pub fn sort_column(v: &mut Vec<u32>)
    ensures
        final(v)@ == sorted_column(old(v)@),
{
    radix_sort(v);
    proof {
        lemma_sorted_column(old(v)@);
    }
}

fn sort_all(cols: &mut Vec<Vec<u32>>)
    ensures
        final(cols)@.len() == old(cols)@.len(),
        forall|i: int| 0 <= i < old(cols)@.len() ==> final(cols)@[i]@ == sorted_column(#[trigger] old(cols)@[i]@),
{
    let n = cols.len();
    let mut i: usize = 0;
    while i < n
        invariant
            n == old(cols)@.len(),
            cols@.len() == n,
            0 <= i <= n,
            forall|j: int| 0 <= j < i ==> cols@[j]@ == sorted_column(#[trigger] old(cols)@[j]@),
            forall|j: int| i <= j < n ==> #[trigger] cols@[j] == old(cols)@[j],
        decreases n - i,
    {
        sort_column(&mut cols[i]);
        i = i + 1;
    }
}

/// The sum of a column.
pub open spec fn column_sum(s: Seq<u32>) -> int
    decreases s.len(),
{
    if s.len() == 0 {
        0
    } else {
        column_sum(s.drop_last()) + s.last()
    }
}

/// The index read after `i` in a column of length `n`, held to the last index.
pub open spec fn neighbor(n: int, i: int) -> int {
    if i + 1 < n {
        i + 1
    } else {
        n - 1
    }
}

/// Twice the statistic read at index `i` of a sorted column: `s[i]` and its
/// neighbour averaged when the index is even, `s[i]` alone when it is odd.
/// Doubling keeps the half of an average exact.
pub open spec fn twice_stat_at(s: Seq<u32>, i: int) -> int {
    if i % 2 == 0 {
        s[i] + s[neighbor(s.len() as int, i)]
    } else {
        2 * s[i]
    }
}

/// Index of the median: half the length, rounded down.
pub open spec fn median_index(n: int) -> int {
    n / 2
}

/// Index of the first quartile: a quarter of the length, rounded down.
pub open spec fn q1_index(n: int) -> int {
    n / 4
}

/// Index of the third quartile: three times the first quartile's index.
pub open spec fn q3_index(n: int) -> int {
    3 * (n / 4)
}

/// Twice the median of a column.
pub open spec fn twice_median(col: Seq<u32>) -> int {
    twice_stat_at(sorted_column(col), median_index(col.len() as int))
}

/// Twice the first quartile of a column.
pub open spec fn twice_q1(col: Seq<u32>) -> int {
    twice_stat_at(sorted_column(col), q1_index(col.len() as int))
}

/// Twice the third quartile of a column.
pub open spec fn twice_q3(col: Seq<u32>) -> int {
    twice_stat_at(sorted_column(col), q3_index(col.len() as int))
}

/// The smallest value of a non-empty column.
pub open spec fn column_min(col: Seq<u32>) -> int {
    sorted_column(col)[0] as int
}

/// The largest value of a non-empty column.
pub open spec fn column_max(col: Seq<u32>) -> int {
    sorted_column(col)[col.len() - 1] as int
}

proof fn lemma_column_sum_bound(s: Seq<u32>)
    ensures
        0 <= column_sum(s) <= s.len() * 0xffff_ffff,
    decreases s.len(),
{
    if s.len() > 0 {
        lemma_column_sum_bound(s.drop_last());
    }
}

/// Sum and length of each column.
fn calc_means_ns(seq_position_scores: &Vec<Vec<u32>>) -> (r: (Vec<u128>, Vec<usize>))
    ensures
        r.0@.len() == seq_position_scores@.len(),
        r.1@.len() == seq_position_scores@.len(),
        forall|i: int|
            0 <= i < seq_position_scores@.len() ==> {
                &&& r.0@[i] == column_sum(#[trigger] seq_position_scores@[i]@)
                &&& r.1@[i] == seq_position_scores@[i]@.len()
            },
{
    let mut sums: Vec<u128> = Vec::new();
    let mut ns: Vec<usize> = Vec::new();
    let mut p: usize = 0;
    while p < seq_position_scores.len()
        invariant
            0 <= p <= seq_position_scores@.len(),
            sums@.len() == p,
            ns@.len() == p,
            forall|i: int|
                0 <= i < p ==> {
                    &&& sums@[i] == column_sum(#[trigger] seq_position_scores@[i]@)
                    &&& ns@[i] == seq_position_scores@[i]@.len()
                },
        decreases seq_position_scores@.len() - p,
    {
        let scores = &seq_position_scores[p];
        let mut sum: u128 = 0;
        let mut k: usize = 0;
        while k < scores.len()
            invariant
                0 <= k <= scores@.len(),
                sum == column_sum(scores@.subrange(0, k as int)),
            decreases scores@.len() - k,
        {
            proof {
                let pre = scores@.subrange(0, k as int);
                assert(scores@.subrange(0, k + 1).drop_last() =~= pre);
                lemma_column_sum_bound(pre);
                let kk = k as int;
                assert(kk * 0xffff_ffff + 0xffff_ffff <= 0xffff_ffff_ffff_ffff * 0xffff_ffff + 0xffff_ffff)
                    by (nonlinear_arith)
                    requires
                        0 <= kk <= 0xffff_ffff_ffff_ffff,
                ;
            }
            sum = sum + scores[k] as u128;
            k = k + 1;
        }
        assert(scores@.subrange(0, scores@.len() as int) =~= scores@);
        sums.push(sum);
        ns.push(scores.len());
        p = p + 1;
    }
    (sums, ns)
}

/// Twice the statistic read at index `i` of a sorted column.
fn twice_stat(s: &Vec<u32>, i: usize) -> (r: u64)
    requires
        i < s@.len(),
    ensures
        r == twice_stat_at(s@, i as int),
{
    if i % 2 == 0 {
        let j: usize = if i + 1 < s.len() {
            i + 1
        } else {
            s.len() - 1
        };
        s[i] as u64 + s[j] as u64
    } else {
        2 * (s[i] as u64)
    }
}

/// Twice the median, first and third quartile of each sorted column.
fn calc_median_q1_q3(seq_position_scores: &Vec<Vec<u32>>) -> (r: (Vec<u64>, Vec<u64>, Vec<u64>))
    requires
        forall|i: int| 0 <= i < seq_position_scores@.len() ==> #[trigger] seq_position_scores@[i]@.len() > 0,
    ensures
        r.0@.len() == seq_position_scores@.len(),
        r.1@.len() == seq_position_scores@.len(),
        r.2@.len() == seq_position_scores@.len(),
        forall|i: int|
            0 <= i < seq_position_scores@.len() ==> {
                let s = #[trigger] seq_position_scores@[i]@;
                &&& r.0@[i] == twice_stat_at(s, median_index(s.len() as int))
                &&& r.1@[i] == twice_stat_at(s, q1_index(s.len() as int))
                &&& r.2@[i] == twice_stat_at(s, q3_index(s.len() as int))
            },
{
    let mut medians: Vec<u64> = Vec::new();
    let mut q1s: Vec<u64> = Vec::new();
    let mut q3s: Vec<u64> = Vec::new();
    let mut p: usize = 0;
    while p < seq_position_scores.len()
        invariant
            0 <= p <= seq_position_scores@.len(),
            forall|i: int| 0 <= i < seq_position_scores@.len() ==> #[trigger] seq_position_scores@[i]@.len() > 0,
            medians@.len() == p,
            q1s@.len() == p,
            q3s@.len() == p,
            forall|i: int|
                0 <= i < p ==> {
                    let s = #[trigger] seq_position_scores@[i]@;
                    &&& medians@[i] == twice_stat_at(s, median_index(s.len() as int))
                    &&& q1s@[i] == twice_stat_at(s, q1_index(s.len() as int))
                    &&& q3s@[i] == twice_stat_at(s, q3_index(s.len() as int))
                },
        decreases seq_position_scores@.len() - p,
    {
        let scores = &seq_position_scores[p];
        let n = scores.len();
        let mid = n / 2;
        let q1 = n / 4;
        let q3 = q1 * 3;
        medians.push(twice_stat(scores, mid));
        q1s.push(twice_stat(scores, q1));
        q3s.push(twice_stat(scores, q3));
        p = p + 1;
    }
    (medians, q1s, q3s)
}

/// First and last value of each sorted column.
fn calc_mins_maxs(seq_position_scores: &Vec<Vec<u32>>) -> (r: (Vec<u32>, Vec<u32>))
    requires
        forall|i: int| 0 <= i < seq_position_scores@.len() ==> #[trigger] seq_position_scores@[i]@.len() > 0,
    ensures
        r.0@.len() == seq_position_scores@.len(),
        r.1@.len() == seq_position_scores@.len(),
        forall|i: int|
            0 <= i < seq_position_scores@.len() ==> {
                let s = #[trigger] seq_position_scores@[i]@;
                &&& r.0@[i] == s[0]
                &&& r.1@[i] == s[s.len() - 1]
            },
{
    let mut mins: Vec<u32> = Vec::new();
    let mut maxs: Vec<u32> = Vec::new();
    let mut p: usize = 0;
    while p < seq_position_scores.len()
        invariant
            0 <= p <= seq_position_scores@.len(),
            forall|i: int| 0 <= i < seq_position_scores@.len() ==> #[trigger] seq_position_scores@[i]@.len() > 0,
            mins@.len() == p,
            maxs@.len() == p,
            forall|i: int|
                0 <= i < p ==> {
                    let s = #[trigger] seq_position_scores@[i]@;
                    &&& mins@[i] == s[0]
                    &&& maxs@[i] == s[s.len() - 1]
                },
        decreases seq_position_scores@.len() - p,
    {
        let scores = &seq_position_scores[p];
        mins.push(scores[0]);
        maxs.push(scores[scores.len() - 1]);
        p = p + 1;
    }
    (mins, maxs)
}

/// The per-position quality table. Medians and quartiles are stored doubled, so
/// that the half of an average of two neighbours stays exact; the mean is kept
/// as the exact sum and count.
pub struct QualityByPosition {
    pub seq_position_sums: Vec<u128>,
    pub seq_position_ns: Vec<usize>,
    pub seq_position_twice_medians: Vec<u64>,
    pub seq_position_twice_q1s: Vec<u64>,
    pub seq_position_twice_q3s: Vec<u64>,
    pub seq_position_mins: Vec<u32>,
    pub seq_position_maxs: Vec<u32>,
}

/// The views of a sequence of columns.
pub open spec fn columns_view(cols: Seq<Vec<u32>>) -> Seq<Seq<u32>> {
    cols.map_values(|c: Vec<u32>| c@)
}

/// Every column holds at least one value.
pub open spec fn all_nonempty(cols: Seq<Seq<u32>>) -> bool {
    forall|i: int| 0 <= i < cols.len() ==> #[trigger] cols[i].len() > 0
}

/// The mean of `sum / n` in hundredths, rounded half up.
pub open spec fn mean_hundredths_of(sum: int, n: int) -> int {
    (200 * sum + n) / (2 * n)
}

impl QualityByPosition {
    /// Number of positions in the table.
    pub open spec fn len(&self) -> nat {
        self.seq_position_ns@.len()
    }

    /// All sequences have one entry per position, each count is positive and
    /// each sum is at most the count times the largest `u32`.
    pub open spec fn wf(&self) -> bool {
        &&& self.seq_position_sums@.len() == self.len()
        &&& self.seq_position_twice_medians@.len() == self.len()
        &&& self.seq_position_twice_q1s@.len() == self.len()
        &&& self.seq_position_twice_q3s@.len() == self.len()
        &&& self.seq_position_mins@.len() == self.len()
        &&& self.seq_position_maxs@.len() == self.len()
        &&& forall|i: int|
            0 <= i < self.len() ==> {
                &&& #[trigger] self.seq_position_ns@[i] > 0
                &&& self.seq_position_sums@[i] <= self.seq_position_ns@[i] * 0xffff_ffff
            }
    }

    /// Position `i` of the table holds the statistics of column `i`.
    pub open spec fn describes(&self, cols: Seq<Seq<u32>>) -> bool {
        &&& self.len() == cols.len()
        &&& forall|i: int|
            0 <= i < cols.len() ==> {
                let c = #[trigger] cols[i];
                &&& self.seq_position_sums@[i] == column_sum(c)
                &&& self.seq_position_ns@[i] == c.len()
                &&& self.seq_position_twice_medians@[i] == twice_median(c)
                &&& self.seq_position_twice_q1s@[i] == twice_q1(c)
                &&& self.seq_position_twice_q3s@[i] == twice_q3(c)
                &&& self.seq_position_mins@[i] == column_min(c)
                &&& self.seq_position_maxs@[i] == column_max(c)
            }
    }

    /// The mean quality at position `i`, in hundredths, rounded half up.
    pub fn mean_hundredths(&self, i: usize) -> (r: u128)
        requires
            self.wf(),
            i < self.len(),
        ensures
            r == mean_hundredths_of(self.seq_position_sums@[i as int] as int, self.seq_position_ns@[i as int] as int),
    {
        let sum = self.seq_position_sums[i];
        let n = self.seq_position_ns[i] as u128;
        proof {
            let (s, m) = (sum as int, n as int);
            assert(200 * s + m <= 200 * 0xffff_ffff_ffff_ffff * 0xffff_ffff + 0xffff_ffff_ffff_ffff)
                by (nonlinear_arith)
                requires
                    0 <= s <= m * 0xffff_ffff,
                    0 < m <= 0xffff_ffff_ffff_ffff,
            ;
        }
        (200 * sum + n) / (2 * n)
    }
}

/// Computes the quality table of the given position columns, sorting each
/// column in place. Fails with `EmptyInput` when there is no column or a column
/// is empty.
pub fn create_quality_by_pos_report(seq_position_scores: Vec<Vec<u32>>) -> (r: Result<QualityByPosition, QcError>)
    ensures
        r is Ok <==> (seq_position_scores@.len() > 0 && all_nonempty(columns_view(seq_position_scores@))),
        r is Err ==> r == Err::<QualityByPosition, QcError>(QcError::EmptyInput),
        r matches Ok(t) ==> t.wf() && t.describes(columns_view(seq_position_scores@)),
{
    let ghost cols = columns_view(seq_position_scores@);
    if seq_position_scores.len() == 0 {
        return Err(QcError::EmptyInput);
    }
    let mut p: usize = 0;
    while p < seq_position_scores.len()
        invariant
            0 <= p <= seq_position_scores@.len(),
            cols == columns_view(seq_position_scores@),
            forall|i: int| 0 <= i < p ==> #[trigger] cols[i].len() > 0,
        decreases seq_position_scores@.len() - p,
    {
        if seq_position_scores[p].len() == 0 {
            assert(cols[p as int].len() == 0);
            return Err(QcError::EmptyInput);
        }
        p = p + 1;
    }
    let (sums, ns) = calc_means_ns(&seq_position_scores);
    let mut sorted = seq_position_scores;
    sort_all(&mut sorted);
    assert forall|i: int| 0 <= i < sorted@.len() implies #[trigger] sorted@[i]@.len() > 0 by {
        lemma_sorted_column(cols[i]);
    }
    let (mins, maxs) = calc_mins_maxs(&sorted);
    let (medians, q1s, q3s) = calc_median_q1_q3(&sorted);
    let t = QualityByPosition {
        seq_position_sums: sums,
        seq_position_ns: ns,
        seq_position_twice_medians: medians,
        seq_position_twice_q1s: q1s,
        seq_position_twice_q3s: q3s,
        seq_position_mins: mins,
        seq_position_maxs: maxs,
    };
    assert forall|i: int| 0 <= i < cols.len() implies {
        &&& t.seq_position_ns@[i] > 0
        &&& t.seq_position_sums@[i] <= t.seq_position_ns@[i] * 0xffff_ffff
    } by {
        lemma_column_sum_bound(cols[i]);
        lemma_sorted_column(cols[i]);
    }
    assert(t.wf());
    assert forall|i: int| 0 <= i < cols.len() implies {
        let c = #[trigger] cols[i];
        &&& t.seq_position_sums@[i] == column_sum(c)
        &&& t.seq_position_ns@[i] == c.len()
        &&& t.seq_position_twice_medians@[i] == twice_median(c)
        &&& t.seq_position_twice_q1s@[i] == twice_q1(c)
        &&& t.seq_position_twice_q3s@[i] == twice_q3(c)
        &&& t.seq_position_mins@[i] == column_min(c)
        &&& t.seq_position_maxs@[i] == column_max(c)
    } by {
        lemma_sorted_column(cols[i]);
        assert(sorted@[i]@ == sorted_column(cols[i]));
    }
    Ok(t)
}

proof fn lemma_sorted_le(s: Seq<u32>, i: int, j: int)
    requires
        sorted_by(s, u32_leq()),
        0 <= i <= j < s.len(),
    ensures
        s[i] <= s[j],
{
    if i < j {
        assert(u32_leq()(s[i], s[j]));
    }
}

proof fn lemma_twice_stat_bounds(s: Seq<u32>, i: int)
    requires
        sorted_by(s, u32_leq()),
        0 <= i < s.len(),
    ensures
        2 * s[i] <= twice_stat_at(s, i) <= 2 * s[neighbor(s.len() as int, i)],
        i <= neighbor(s.len() as int, i) < s.len(),
{
    lemma_sorted_le(s, i, neighbor(s.len() as int, i));
}

proof fn lemma_twice_stat_monotone(s: Seq<u32>, i: int, j: int)
    requires
        sorted_by(s, u32_leq()),
        0 <= i <= j < s.len(),
    ensures
        twice_stat_at(s, i) <= twice_stat_at(s, j),
{
    if i < j {
        lemma_twice_stat_bounds(s, i);
        lemma_twice_stat_bounds(s, j);
        lemma_sorted_le(s, neighbor(s.len() as int, i), j);
    }
}

/// In every non-empty column, minimum, first quartile, median, third quartile
/// and maximum come in ascending order. The one exception is a column of two
/// or three values whose two smallest differ: there the third quartile is read
/// at index 0 and the median at index 1, so the median exceeds it; those
/// columns are left out.
pub proof fn lemma_quartiles_ordered(col: Seq<u32>)
    requires
        col.len() > 0,
        !(2 <= col.len() <= 3 && sorted_column(col)[0] < sorted_column(col)[1]),
    ensures
        2 * column_min(col) <= twice_q1(col),
        twice_q1(col) <= twice_median(col),
        twice_median(col) <= twice_q3(col),
        twice_q3(col) <= 2 * column_max(col),
{
    lemma_sorted_column(col);
    let s = sorted_column(col);
    let n = col.len() as int;
    let (a, m, b) = (q1_index(n), median_index(n), q3_index(n));
    lemma_twice_stat_bounds(s, a);
    lemma_sorted_le(s, 0, a);
    lemma_twice_stat_bounds(s, b);
    lemma_sorted_le(s, neighbor(n, b), n - 1);
    lemma_twice_stat_monotone(s, a, m);
    if 2 <= n <= 3 {
        lemma_sorted_le(s, 0, 1);
    } else {
        lemma_twice_stat_monotone(s, m, b);
    }
}

/// The rounded mean in hundredths lies within half a hundredth of the exact
/// mean `sum / n`: `|100 * sum / n - r| <= 1/2`.
pub proof fn lemma_mean_hundredths_close(sum: int, n: int)
    requires
        sum >= 0,
        n > 0,
    ensures
        2 * n * mean_hundredths_of(sum, n) <= 200 * sum + n,
        200 * sum + n < 2 * n * mean_hundredths_of(sum, n) + 2 * n,
        -n <= 200 * sum - 2 * n * mean_hundredths_of(sum, n) < n,
{
    let d = 2 * n;
    let x = 200 * sum + n;
    let q = x / d;
    assert(x == d * q + x % d && 0 <= x % d < d) by (nonlinear_arith)
        requires
            d > 0,
            q == x / d,
    ;
    assert(d * q == 2 * n * q) by (nonlinear_arith)
        requires
            d == 2 * n,
    ;
}

} // verus!
