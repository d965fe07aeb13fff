//! The composition reducer: base classification, per-position tallies and
//! percentages of A, C, G, T and other bases.

use vstd::prelude::*;

verus! {

/// The five categories a base byte falls into.
#[derive(Debug, Clone, Copy, PartialEq, Eq, Structural)]
pub enum BaseKind {
    A,
    C,
    G,
    T,
    Other,
}

/// The category of a base byte: `A`, `C`, `G` and `T` in either case, anything
/// else `Other`.
pub open spec fn base_kind(b: u8) -> BaseKind {
    if b == 0x41 || b == 0x61 {
        BaseKind::A
    } else if b == 0x43 || b == 0x63 {
        BaseKind::C
    } else if b == 0x47 || b == 0x67 {
        BaseKind::G
    } else if b == 0x54 || b == 0x74 {
        BaseKind::T
    } else {
        BaseKind::Other
    }
}

const A_UPPER: u8 = 0x41;
const C_UPPER: u8 = 0x43;
const G_UPPER: u8 = 0x47;
const T_UPPER: u8 = 0x54;
const A_LOWER: u8 = 0x61;
const C_LOWER: u8 = 0x63;
const G_LOWER: u8 = 0x67;
const T_LOWER: u8 = 0x74;

/// Classifies a base byte.
pub fn classify_base(b: u8) -> (r: BaseKind)
    ensures
        r == base_kind(b),
{
    if b == A_UPPER || b == A_LOWER {
        BaseKind::A
    } else if b == C_UPPER || b == C_LOWER {
        BaseKind::C
    } else if b == G_UPPER || b == G_LOWER {
        BaseKind::G
    } else if b == T_UPPER || b == T_LOWER {
        BaseKind::T
    } else {
        BaseKind::Other
    }
}

/// Classification ignores case: a lowercase letter falls in the category of
/// its uppercase form, and every byte but `A`, `C`, `G`, `T`, `a`, `c`, `g`,
/// `t` is `Other`.
pub proof fn lemma_classify_case_insensitive(b: u8)
    ensures
        0x61 <= b <= 0x7a ==> base_kind(b) == base_kind((b - 0x20) as u8),
        base_kind(b) == BaseKind::Other <==> !(b == 0x41 || b == 0x43 || b == 0x47 || b == 0x54
            || b == 0x61 || b == 0x63 || b == 0x67 || b == 0x74),
{
}

/// The counts of each category at one position.
#[derive(Debug, Clone, Copy, PartialEq, Eq, Structural)]
pub struct BaseTally {
    pub a: usize,
    pub c: usize,
    pub g: usize,
    pub t: usize,
    pub other: usize,
}

impl BaseTally {
    /// The count of one category.
    pub open spec fn count(&self, k: BaseKind) -> int {
        match k {
            BaseKind::A => self.a as int,
            BaseKind::C => self.c as int,
            BaseKind::G => self.g as int,
            BaseKind::T => self.t as int,
            BaseKind::Other => self.other as int,
        }
    }

    /// The count of all categories together.
    pub open spec fn total(&self) -> int {
        self.a + self.c + self.g + self.t + self.other
    }

    /// A tally with every count zero.
    pub fn zero() -> (r: BaseTally)
        ensures
            r.total() == 0,
            forall|k: BaseKind| #[trigger] r.count(k) == 0,
    {
        BaseTally { a: 0, c: 0, g: 0, t: 0, other: 0 }
    }

    /// Counts one more base of category `k`.
    pub fn bump(&mut self, k: BaseKind)
        requires
            old(self).total() < usize::MAX,
        ensures
            final(self).count(k) == old(self).count(k) + 1,
            forall|j: BaseKind| j != k ==> #[trigger] final(self).count(j) == old(self).count(j),
            final(self).total() == old(self).total() + 1,
    {
        match k {
            BaseKind::A => self.a = self.a + 1,
            BaseKind::C => self.c = self.c + 1,
            BaseKind::G => self.g = self.g + 1,
            BaseKind::T => self.t = self.t + 1,
            BaseKind::Other => self.other = self.other + 1,
        }
    }
}

/// The per-position base table: one count per position for each category.
pub struct BaseByPosition {
    pub a_bases: Vec<usize>,
    pub c_bases: Vec<usize>,
    pub g_bases: Vec<usize>,
    pub t_bases: Vec<usize>,
    pub other_bases: Vec<usize>,
}

/// Shares of the five categories in ten-thousandths of a percent, so that
/// `1_000_000` is 100%.
#[derive(Debug, Clone, Copy, PartialEq, Eq, Structural)]
pub struct Composition {
    pub a: u128,
    pub c: u128,
    pub g: u128,
    pub t: u128,
    pub other: u128,
}

/// `count / total` in ten-thousandths of a percent, rounded half up.
pub open spec fn percent_e4(count: int, total: int) -> int {
    (2_000_000 * count + total) / (2 * total)
}

/// The sum of a sequence of counts.
pub open spec fn count_sum(s: Seq<usize>) -> int
    decreases s.len(),
{
    if s.len() == 0 {
        0
    } else {
        count_sum(s.drop_last()) + s.last()
    }
}

/// Percentage of `count` in `total`, in ten-thousandths of a percent.
fn percent(count: u128, total: u128) -> (r: u128)
    requires
        0 < total <= 0xffff_ffff_ffff_ffff_ffff,
        count <= total,
    ensures
        r == percent_e4(count as int, total as int),
{
    (2_000_000 * count + total) / (2 * total)
}

impl BaseByPosition {
    /// Number of positions in the table.
    pub open spec fn len(&self) -> nat {
        self.a_bases@.len()
    }

    /// The tally at position `i`.
    pub open spec fn tally_at(&self, i: int) -> BaseTally {
        BaseTally {
            a: self.a_bases@[i],
            c: self.c_bases@[i],
            g: self.g_bases@[i],
            t: self.t_bases@[i],
            other: self.other_bases@[i],
        }
    }

    /// All five sequences have one entry per position and every position
    /// counts at least one base.
    pub open spec fn wf(&self) -> bool {
        &&& self.c_bases@.len() == self.len()
        &&& self.g_bases@.len() == self.len()
        &&& self.t_bases@.len() == self.len()
        &&& self.other_bases@.len() == self.len()
        &&& forall|i: int| 0 <= i < self.len() ==> 1 <= #[trigger] self.tally_at(i).total() <= usize::MAX
    }

    /// Sum of the five category sums: the number of bases counted.
    pub open spec fn total_bases(&self) -> int {
        count_sum(self.a_bases@) + count_sum(self.c_bases@) + count_sum(self.g_bases@)
            + count_sum(self.t_bases@) + count_sum(self.other_bases@)
    }

    /// Sum over positions of the per-position totals of the first `n` positions.
    pub open spec fn positions_total(&self, n: int) -> int
        decreases n,
    {
        if n <= 0 {
            0
        } else {
            self.positions_total(n - 1) + self.tally_at(n - 1).total()
        }
    }

    /// The percentages of the five categories at position `i`, each over the
    /// number of bases counted there.
    pub fn position_percentages(&self, i: usize) -> (r: Composition)
        requires
            self.wf(),
            i < self.len(),
        ensures
            ({
                let tl = self.tally_at(i as int);
                &&& r.a == percent_e4(tl.a as int, tl.total())
                &&& r.c == percent_e4(tl.c as int, tl.total())
                &&& r.g == percent_e4(tl.g as int, tl.total())
                &&& r.t == percent_e4(tl.t as int, tl.total())
                &&& r.other == percent_e4(tl.other as int, tl.total())
            }),
    {
        proof {
            assert(self.tally_at(i as int).total() >= 1);
        }
        let a = self.a_bases[i] as u128;
        let c = self.c_bases[i] as u128;
        let g = self.g_bases[i] as u128;
        let t = self.t_bases[i] as u128;
        let other = self.other_bases[i] as u128;
        let total = a + c + g + t + other;
        Composition {
            a: percent(a, total),
            c: percent(c, total),
            g: percent(g, total),
            t: percent(t, total),
            other: percent(other, total),
        }
    }

    /// The percentages of the five categories over the whole table: each
    /// category's count summed over all positions, over all bases counted.
    pub fn overall_percentages(&self) -> (r: Composition)
        requires
            self.wf(),
            self.len() > 0,
            self.total_bases() <= u64::MAX,
        ensures
            r.a == percent_e4(count_sum(self.a_bases@), self.total_bases()),
            r.c == percent_e4(count_sum(self.c_bases@), self.total_bases()),
            r.g == percent_e4(count_sum(self.g_bases@), self.total_bases()),
            r.t == percent_e4(count_sum(self.t_bases@), self.total_bases()),
            r.other == percent_e4(count_sum(self.other_bases@), self.total_bases()),
    {
        let a = sum_counts(&self.a_bases);
        let c = sum_counts(&self.c_bases);
        let g = sum_counts(&self.g_bases);
        let t = sum_counts(&self.t_bases);
        let other = sum_counts(&self.other_bases);
        proof {
            lemma_count_sum_nonneg(self.a_bases@);
            lemma_count_sum_nonneg(self.c_bases@);
            lemma_count_sum_nonneg(self.g_bases@);
            lemma_count_sum_nonneg(self.t_bases@);
            lemma_count_sum_nonneg(self.other_bases@);
            self.lemma_total_is_sum_over_positions(self.len() as int);
            self.lemma_positions_total_positive(self.len() as int);
        }
        let total = a + c + g + t + other;
        Composition {
            a: percent(a, total),
            c: percent(c, total),
            g: percent(g, total),
            t: percent(t, total),
            other: percent(other, total),
        }
    }

    proof fn lemma_positions_total_positive(&self, n: int)
        requires
            self.wf(),
            0 < n <= self.len(),
        ensures
            self.positions_total(n) >= 1,
        decreases n,
    {
        assert(self.tally_at(n - 1).total() >= 1);
        if n > 1 {
            self.lemma_positions_total_positive(n - 1);
        } else {
            assert(self.positions_total(0) == 0);
        }
    }

    proof fn lemma_positions_total_bound(&self, n: int)
        requires
            self.wf(),
            0 <= n <= self.len(),
        ensures
            0 <= self.positions_total(n) <= n * usize::MAX,
        decreases n,
    {
        if n > 0 {
            assert(self.tally_at(n - 1).total() <= usize::MAX);
            self.lemma_positions_total_bound(n - 1);
        }
    }

    /// The number of bases counted over all positions and categories.
    pub fn count_bases(&self) -> (r: u128)
        requires
            self.wf(),
        ensures
            r == self.total_bases(),
    {
        let a = sum_counts(&self.a_bases);
        let c = sum_counts(&self.c_bases);
        let g = sum_counts(&self.g_bases);
        let t = sum_counts(&self.t_bases);
        let other = sum_counts(&self.other_bases);
        proof {
            lemma_count_sum_nonneg(self.a_bases@);
            lemma_count_sum_nonneg(self.c_bases@);
            lemma_count_sum_nonneg(self.g_bases@);
            lemma_count_sum_nonneg(self.t_bases@);
            lemma_count_sum_nonneg(self.other_bases@);
            let n = self.len() as int;
            assert(n == self.a_bases.len());
            self.lemma_total_is_sum_over_positions(n);
            self.lemma_positions_total_bound(n);
            let m = usize::MAX as int;
            assert(n * m <= m * m) by (nonlinear_arith)
                requires
                    0 <= n <= m,
            ;
            assert(m * m <= 0xffff_ffff_ffff_ffff * 0xffff_ffff_ffff_ffff) by (nonlinear_arith)
                requires
                    0 <= m <= 0xffff_ffff_ffff_ffff,
            ;
        }
        a + c + g + t + other
    }

    /// The overall total pools the per-position counts: the sum over
    /// categories of each category's sum over the first `n` positions equals
    /// the sum over those positions of their totals. The overall percentages
    /// are thus the pooled counts over the pooled total, each position weighted
    /// by its number of bases, not an average of per-position percentages.
    pub proof fn lemma_total_is_sum_over_positions(&self, n: int)
        requires
            self.wf(),
            0 <= n <= self.len(),
        ensures
            count_sum(self.a_bases@.take(n)) + count_sum(self.c_bases@.take(n)) + count_sum(
                self.g_bases@.take(n),
            ) + count_sum(self.t_bases@.take(n)) + count_sum(self.other_bases@.take(n))
                == self.positions_total(n),
            n == self.len() ==> self.total_bases() == self.positions_total(n),
        decreases n,
    {
        if n > 0 {
            self.lemma_total_is_sum_over_positions(n - 1);
            assert(self.a_bases@.take(n).drop_last() =~= self.a_bases@.take(n - 1));
            assert(self.c_bases@.take(n).drop_last() =~= self.c_bases@.take(n - 1));
            assert(self.g_bases@.take(n).drop_last() =~= self.g_bases@.take(n - 1));
            assert(self.t_bases@.take(n).drop_last() =~= self.t_bases@.take(n - 1));
            assert(self.other_bases@.take(n).drop_last() =~= self.other_bases@.take(n - 1));
        }
        if n == self.len() {
            assert(self.a_bases@.take(n) =~= self.a_bases@);
            assert(self.c_bases@.take(n) =~= self.c_bases@);
            assert(self.g_bases@.take(n) =~= self.g_bases@);
            assert(self.t_bases@.take(n) =~= self.t_bases@);
            assert(self.other_bases@.take(n) =~= self.other_bases@);
        }
    }
}

proof fn lemma_count_sum_nonneg(s: Seq<usize>)
    ensures
        0 <= count_sum(s) <= s.len() * usize::MAX,
    decreases s.len(),
{
    if s.len() > 0 {
        lemma_count_sum_nonneg(s.drop_last());
    }
}

/// The sum of a sequence of counts.
fn sum_counts(v: &Vec<usize>) -> (r: u128)
    ensures
        r == count_sum(v@),
{
    let mut sum: u128 = 0;
    let mut k: usize = 0;
    while k < v.len()
        invariant
            0 <= k <= v@.len(),
            sum == count_sum(v@.take(k as int)),
        decreases v@.len() - k,
    {
        proof {
            let pre = v@.take(k as int);
            assert(v@.take(k + 1).drop_last() =~= pre);
            lemma_count_sum_nonneg(pre);
            let kk = k as int;
            let m = usize::MAX as int;
            assert(kk * m + m <= 0xffff_ffff_ffff_ffff * 0xffff_ffff_ffff_ffff + 0xffff_ffff_ffff_ffff)
                by (nonlinear_arith)
                requires
                    0 <= kk <= m,
                    m <= 0xffff_ffff_ffff_ffff,
            ;
        }
        sum = sum + v[k] as u128;
        k = k + 1;
    }
    assert(v@.take(v@.len() as int) =~= v@);
    sum
}

/// The percentages of the five categories over one total add up to 100%
/// within rounding: each is rounded to the nearest ten-thousandth of a percent,
/// so the five together stay within two units of `1_000_000`.
pub proof fn lemma_percentages_sum_to_hundred(tl: BaseTally)
    requires
        tl.total() >= 1,
    ensures
        1_000_000 - 2 <= percent_e4(tl.a as int, tl.total()) + percent_e4(tl.c as int, tl.total())
            + percent_e4(tl.g as int, tl.total()) + percent_e4(tl.t as int, tl.total())
            + percent_e4(tl.other as int, tl.total()) <= 1_000_000 + 2,
{
    let n = tl.total();
    lemma_percent_bounds(tl.a as int, n);
    lemma_percent_bounds(tl.c as int, n);
    lemma_percent_bounds(tl.g as int, n);
    lemma_percent_bounds(tl.t as int, n);
    lemma_percent_bounds(tl.other as int, n);
    let (pa, pc, pg, pt, po) = (
        percent_e4(tl.a as int, n),
        percent_e4(tl.c as int, n),
        percent_e4(tl.g as int, n),
        percent_e4(tl.t as int, n),
        percent_e4(tl.other as int, n),
    );
    let p = pa + pc + pg + pt + po;
    assert(2 * n * p == 2 * n * pa + 2 * n * pc + 2 * n * pg + 2 * n * pt + 2 * n * po)
        by (nonlinear_arith)
        requires
            p == pa + pc + pg + pt + po,
    ;
    assert(2 * n * p <= 2_000_000 * n + 5 * n);
    assert(2_000_000 * n + 5 * n < 2 * n * p + 10 * n);
    assert(p <= 1_000_000 + 2) by (nonlinear_arith)
        requires
            2 * n * p <= 2_000_000 * n + 5 * n,
            n >= 1,
    ;
    assert(p >= 1_000_000 - 2) by (nonlinear_arith)
        requires
            2_000_000 * n + 5 * n < 2 * n * p + 10 * n,
            n >= 1,
    ;
}

proof fn lemma_percent_bounds(c: int, n: int)
    requires
        c >= 0,
        n >= 1,
    ensures
        2 * n * percent_e4(c, n) <= 2_000_000 * c + n < 2 * n * percent_e4(c, n) + 2 * n,
{
    let d = 2 * n;
    let x = 2_000_000 * c + n;
    let q = x / d;
    assert(x == d * q + x % d && 0 <= x % d < d) by (nonlinear_arith)
        requires
            d > 0,
            q == x / d,
    ;
    assert(d * q == 2 * n * q) by (nonlinear_arith)
        requires
            d == 2 * n,
    ;
}

/// Turns a list of per-position tallies into one sequence per category.
pub fn create_base_by_position_report(seq_position_bases: Vec<BaseTally>) -> (r: BaseByPosition)
    ensures
        r.len() == seq_position_bases@.len(),
        r.c_bases@.len() == r.len(),
        r.g_bases@.len() == r.len(),
        r.t_bases@.len() == r.len(),
        r.other_bases@.len() == r.len(),
        forall|i: int| 0 <= i < seq_position_bases@.len() ==> #[trigger] r.tally_at(i) == seq_position_bases@[i],
{
    let mut a_bases: Vec<usize> = Vec::new();
    let mut c_bases: Vec<usize> = Vec::new();
    let mut g_bases: Vec<usize> = Vec::new();
    let mut t_bases: Vec<usize> = Vec::new();
    let mut other_bases: Vec<usize> = Vec::new();
    let mut p: usize = 0;
    while p < seq_position_bases.len()
        invariant
            0 <= p <= seq_position_bases@.len(),
            a_bases@.len() == p,
            c_bases@.len() == p,
            g_bases@.len() == p,
            t_bases@.len() == p,
            other_bases@.len() == p,
            forall|i: int|
                0 <= i < p ==> {
                    let tl = #[trigger] seq_position_bases@[i];
                    &&& a_bases@[i] == tl.a
                    &&& c_bases@[i] == tl.c
                    &&& g_bases@[i] == tl.g
                    &&& t_bases@[i] == tl.t
                    &&& other_bases@[i] == tl.other
                },
        decreases seq_position_bases@.len() - p,
    {
        let tl = seq_position_bases[p];
        a_bases.push(tl.a);
        c_bases.push(tl.c);
        g_bases.push(tl.g);
        t_bases.push(tl.t);
        other_bases.push(tl.other);
        p = p + 1;
    }
    let r = BaseByPosition { a_bases, c_bases, g_bases, t_bases, other_bases };
    assert forall|i: int| 0 <= i < seq_position_bases@.len() implies #[trigger] r.tally_at(i)
        == seq_position_bases@[i] by {
        let tl = seq_position_bases@[i];
        assert(a_bases@[i] == tl.a);
    }
    r
}

} // verus!
