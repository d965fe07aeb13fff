//! The box-plot track of one position: fifty columns, one per quality value,
//! marking minimum, quartiles, median and maximum.

use vstd::prelude::*;

verus! {

/// Number of columns of a track; values beyond the last column are drawn on it.
pub const TRACK_WIDTH: usize = 50;

/// `|`, the median mark.
pub const MEDIAN_MARK: u8 = 0x7c;
/// `]`, the third-quartile mark.
pub const Q3_MARK: u8 = 0x5d;
/// `[`, the first-quartile mark.
pub const Q1_MARK: u8 = 0x5b;
/// `>`, the maximum mark.
pub const MAX_MARK: u8 = 0x3e;
/// `<`, the minimum mark.
pub const MIN_MARK: u8 = 0x3c;
/// `-`, the whisker between an extreme and its quartile.
pub const WHISKER: u8 = 0x2d;
/// A blank column.
pub const BLANK: u8 = 0x20;

/// The column a value is drawn on: the value itself, held to the last column.
pub open spec fn track_column(v: int) -> int {
    if v < 49 {
        v
    } else {
        49
    }
}

/// The character at column `p` of a track whose minimum, first quartile,
/// median, third quartile and maximum stand on columns `lo`, `a`, `m`, `b`,
/// `hi`: dashes from the minimum up to the first quartile and from the third
/// quartile up to the maximum, then the marks `<`, `>`, `[`, `]`, `|` written
/// in that order, so that the median wins where marks meet.
pub open spec fn track_char(p: int, lo: int, a: int, m: int, b: int, hi: int) -> u8 {
    if p == m {
        MEDIAN_MARK
    } else if p == b {
        Q3_MARK
    } else if p == a {
        Q1_MARK
    } else if p == hi {
        MAX_MARK
    } else if p == lo {
        MIN_MARK
    } else if (lo <= p < a) || (b <= p < hi) {
        WHISKER
    } else {
        BLANK
    }
}

/// Renders the track of one position from its minimum, doubled first
/// quartile, doubled median, doubled third quartile and maximum. Halves are
/// dropped (a statistic of 20.5 stands on column 20) and values past the
/// last column are drawn on it.
pub fn render_track(min: u32, twice_q1: u64, twice_median: u64, twice_q3: u64, max: u32) -> (r: Vec<u8>)
    ensures
        r@.len() == TRACK_WIDTH,
        forall|p: int|
            0 <= p < TRACK_WIDTH ==> #[trigger] r@[p] == track_char(
                p,
                track_column(min as int),
                track_column(twice_q1 as int / 2),
                track_column(twice_median as int / 2),
                track_column(twice_q3 as int / 2),
                track_column(max as int),
            ),
{
    let lo = clamp_column(min as u64);
    let a = clamp_column(twice_q1 / 2);
    let m = clamp_column(twice_median / 2);
    let b = clamp_column(twice_q3 / 2);
    let hi = clamp_column(max as u64);
    let mut row: Vec<u8> = Vec::new();
    let mut p: usize = 0;
    while p < TRACK_WIDTH
        invariant
            0 <= p <= TRACK_WIDTH,
            row@.len() == p,
            forall|x: int| 0 <= x < p ==> #[trigger] row@[x] == track_char(x, lo as int, a as int, m as int, b as int, hi as int),
        decreases TRACK_WIDTH - p,
    {
        let ch: u8 = if p == m {
            MEDIAN_MARK
        } else if p == b {
            Q3_MARK
        } else if p == a {
            Q1_MARK
        } else if p == hi {
            MAX_MARK
        } else if p == lo {
            MIN_MARK
        } else if (lo <= p && p < a) || (b <= p && p < hi) {
            WHISKER
        } else {
            BLANK
        };
        row.push(ch);
        p = p + 1;
    }
    row
}

fn clamp_column(v: u64) -> (r: usize)
    ensures
        r == track_column(v as int),
{
    if v < 49 {
        v as usize
    } else {
        49
    }
}

} // verus!
