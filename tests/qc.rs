use rustqc::accumulate::{accumulate, PositionAccumulator, Read};
use rustqc::bases::{classify_base, create_base_by_position_report, BaseByPosition, BaseKind, BaseTally};
use rustqc::error::QcError;
use rustqc::stats::{create_quality_by_pos_report, sort_column, QualityByPosition};
use rustqc::track::render_track;

fn read(seq: &str, qual: &str) -> Read {
    Read { seq: seq.as_bytes().to_vec(), qual: qual.as_bytes().to_vec() }
}

fn reports(reads: &[Read]) -> (QualityByPosition, BaseByPosition) {
    let mut acc = PositionAccumulator::new();
    for r in reads {
        acc.add_read(&r.seq, &r.qual).unwrap();
    }
    acc.finish().unwrap()
}

fn stats_of(col: Vec<u32>) -> QualityByPosition {
    create_quality_by_pos_report(vec![col]).unwrap()
}

#[test]
fn sort_column_orders_values() {
    let mut v = vec![40, 3, 17, 3, 0, 222, 9];
    sort_column(&mut v);
    assert_eq!(v, vec![0, 3, 3, 9, 17, 40, 222]);
}

#[test]
fn quartiles_ordered_on_long_column() {
    let q = stats_of(vec![7, 1, 30, 12, 12, 4, 25, 18, 2]);
    let (lo, hi) = (q.seq_position_mins[0] as u64, q.seq_position_maxs[0] as u64);
    let (a, m, b) = (q.seq_position_twice_q1s[0], q.seq_position_twice_medians[0], q.seq_position_twice_q3s[0]);
    assert!(2 * lo <= a && a <= m && m <= b && b <= 2 * hi);
    // sorted: 1 2 4 7 12 12 18 25 30; n = 9, mid = 4 (even), q1 = 2 (even), q3 = 6 (even)
    assert_eq!(m, 12 + 12);
    assert_eq!(a, 4 + 7);
    assert_eq!(b, 18 + 25);
    assert_eq!((lo, hi), (1, 30));
}

#[test]
fn index_rule_reproduced_exactly() {
    // n = 4: mid = 2 (even), q1 = 1 (odd), q3 = 3 (odd, last index)
    let q = stats_of(vec![40, 10, 30, 20]);
    assert_eq!(q.seq_position_twice_medians[0], 30 + 40);
    assert_eq!(q.seq_position_twice_q1s[0], 2 * 20);
    assert_eq!(q.seq_position_twice_q3s[0], 2 * 40);
    // n = 6: mid = 3 (odd), q1 = 1 (odd), q3 = 3
    let q = stats_of(vec![6, 5, 4, 3, 2, 1]);
    assert_eq!(q.seq_position_twice_medians[0], 2 * 4);
    assert_eq!(q.seq_position_twice_q1s[0], 2 * 2);
    assert_eq!(q.seq_position_twice_q3s[0], 2 * 4);
}

#[test]
fn neighbour_held_to_last_index_on_short_columns() {
    let q = stats_of(vec![9]);
    assert_eq!(q.seq_position_twice_medians[0], 18);
    assert_eq!(q.seq_position_twice_q1s[0], 18);
    assert_eq!(q.seq_position_twice_q3s[0], 18);
    // n = 2: mid = 1 (odd), q1 = q3 = 0 (even): the median exceeds the third quartile
    let q = stats_of(vec![10, 20]);
    assert_eq!(q.seq_position_twice_medians[0], 40);
    assert_eq!(q.seq_position_twice_q1s[0], 30);
    assert_eq!(q.seq_position_twice_q3s[0], 30);
}

#[test]
fn mean_of_uniform_column() {
    let q = stats_of(vec![30; 1000]);
    assert_eq!(q.seq_position_sums[0], 30_000);
    assert_eq!(q.seq_position_ns[0], 1000);
    assert_eq!(q.mean_hundredths(0), 3000);
}

#[test]
fn mean_of_skewed_column() {
    let q = stats_of(vec![0, 0, 0, 0, 0, 0, 40]);
    assert_eq!(q.seq_position_sums[0], 40);
    assert_eq!(q.seq_position_ns[0], 7);
    // 40 / 7 = 5.714...
    assert_eq!(q.mean_hundredths(0), 571);
    let exact = 40.0f64 / 7.0;
    assert!((q.mean_hundredths(0) as f64 / 100.0 - exact).abs() <= 0.005);
}

#[test]
fn mean_of_large_values_does_not_overflow() {
    let q = stats_of(vec![u32::MAX, u32::MAX, u32::MAX]);
    assert_eq!(q.seq_position_sums[0], 3 * u32::MAX as u128);
    assert_eq!(q.mean_hundredths(0), 100 * u32::MAX as u128);
    assert_eq!(q.seq_position_twice_medians[0], 2 * u32::MAX as u64);
}

#[test]
fn position_percentages_sum_to_hundred() {
    let b = create_base_by_position_report(vec![BaseTally { a: 1, c: 1, g: 1, t: 0, other: 0 }]);
    let p = b.position_percentages(0);
    assert_eq!((p.a, p.c, p.g, p.t, p.other), (333_333, 333_333, 333_333, 0, 0));
    let sum = p.a + p.c + p.g + p.t + p.other;
    assert!(999_998 <= sum && sum <= 1_000_002);
    let b = create_base_by_position_report(vec![BaseTally { a: 2, c: 1, g: 0, t: 0, other: 0 }]);
    let p = b.position_percentages(0);
    assert_eq!((p.a, p.c), (666_667, 333_333));
    assert_eq!(p.a + p.c + p.g + p.t + p.other, 1_000_000);
}

#[test]
fn overall_pools_counts_not_proportions() {
    let b = create_base_by_position_report(vec![
        BaseTally { a: 1, c: 0, g: 0, t: 0, other: 0 },
        BaseTally { a: 0, c: 3, g: 0, t: 0, other: 0 },
    ]);
    assert_eq!(b.count_bases(), 4);
    let o = b.overall_percentages();
    // pooled: 1 A in 4 bases; an average of the proportions would give 50%
    assert_eq!(o.a, 250_000);
    assert_eq!(o.c, 750_000);
    assert_eq!((o.g, o.t, o.other), (0, 0, 0));
}

#[test]
fn other_counts_in_the_total() {
    let b = create_base_by_position_report(vec![BaseTally { a: 1, c: 1, g: 1, t: 0, other: 1 }]);
    let p = b.position_percentages(0);
    assert_eq!((p.a, p.c, p.g, p.t, p.other), (250_000, 250_000, 250_000, 0, 250_000));
}

#[test]
fn lowercase_classifies_as_uppercase() {
    for (lower, upper) in [(b'a', b'A'), (b'c', b'C'), (b'g', b'G'), (b't', b'T'), (b'n', b'N')] {
        assert_eq!(classify_base(lower), classify_base(upper));
    }
    assert_eq!(classify_base(b'a'), BaseKind::A);
    assert_eq!(classify_base(b'C'), BaseKind::C);
    assert_eq!(classify_base(b'g'), BaseKind::G);
    assert_eq!(classify_base(b'T'), BaseKind::T);
    assert_eq!(classify_base(b'N'), BaseKind::Other);
    assert_eq!(classify_base(b'u'), BaseKind::Other);
    assert_eq!(classify_base(b'-'), BaseKind::Other);
}

#[test]
fn mixed_case_reads_tally_identically() {
    let (_, upper) = reports(&[read("ACGTN", "IIIII")]);
    let (_, lower) = reports(&[read("acgtn", "IIIII")]);
    assert_eq!(upper.a_bases, lower.a_bases);
    assert_eq!(upper.c_bases, lower.c_bases);
    assert_eq!(upper.g_bases, lower.g_bases);
    assert_eq!(upper.t_bases, lower.t_bases);
    assert_eq!(upper.other_bases, lower.other_bases);
    assert_eq!(lower.a_bases, vec![1, 0, 0, 0, 0]);
    assert_eq!(lower.other_bases, vec![0, 0, 0, 0, 1]);
}

#[test]
fn ragged_reads_give_longest_width() {
    let (q, b) = reports(&[
        read("AAAAAAAAAA", "IIIIIIIIII"),
        read("CCCCC", "+++++"),
        read("GGGGGGGG", "55555555"),
    ]);
    assert_eq!(q.seq_position_ns.len(), 10);
    assert_eq!(b.a_bases.len(), 10);
    assert_eq!(q.seq_position_ns, vec![3, 3, 3, 3, 3, 2, 2, 2, 1, 1]);
    for i in 5..10 {
        assert_eq!(b.c_bases[i], 0);
    }
    for i in 8..10 {
        assert_eq!(q.seq_position_sums[i], 40);
        assert_eq!(q.seq_position_mins[i], 40);
        assert_eq!(b.a_bases[i], 1);
        assert_eq!(b.g_bases[i], 0);
    }
    assert_eq!(q.seq_position_sums[0], 40 + 10 + 20);
}

#[test]
fn end_to_end_three_reads() {
    let (q, b) = reports(&[read("ACGT", "!+5I"), read("acgN", "I5+!"), read("TTTT", "++++")]);
    assert_eq!(q.seq_position_ns, vec![3, 3, 3, 3]);
    assert_eq!(q.seq_position_sums, vec![50, 40, 40, 50]);
    assert_eq!(q.seq_position_mins, vec![0, 10, 10, 0]);
    assert_eq!(q.seq_position_maxs, vec![40, 20, 20, 40]);
    assert_eq!(q.seq_position_twice_medians, vec![20, 20, 20, 20]);
    assert_eq!(q.seq_position_twice_q1s, vec![10, 20, 20, 10]);
    assert_eq!(q.seq_position_twice_q3s, vec![10, 20, 20, 10]);
    assert_eq!(q.mean_hundredths(0), 1667);
    assert_eq!(q.mean_hundredths(1), 1333);
    assert_eq!(b.a_bases, vec![2, 0, 0, 0]);
    assert_eq!(b.c_bases, vec![0, 2, 0, 0]);
    assert_eq!(b.g_bases, vec![0, 0, 2, 0]);
    assert_eq!(b.t_bases, vec![1, 1, 1, 2]);
    assert_eq!(b.other_bases, vec![0, 0, 0, 1]);
    let o = b.overall_percentages();
    assert_eq!(b.count_bases(), 12);
    assert_eq!((o.a, o.c, o.g, o.t, o.other), (166_667, 166_667, 166_667, 416_667, 83_333));
}

#[test]
fn empty_input_is_an_error() {
    let acc = PositionAccumulator::new();
    assert!(matches!(acc.finish(), Err(QcError::EmptyInput)));
    let mut acc = PositionAccumulator::new();
    acc.add_read(&vec![], &vec![]).unwrap();
    assert!(matches!(acc.finish(), Err(QcError::EmptyInput)));
    assert!(matches!(create_quality_by_pos_report(vec![]), Err(QcError::EmptyInput)));
    assert!(matches!(create_quality_by_pos_report(vec![vec![1], vec![]]), Err(QcError::EmptyInput)));
}

#[test]
fn length_mismatch_is_refused() {
    let mut acc = PositionAccumulator::new();
    let r = acc.add_read(&b"ACGT".to_vec(), &b"III".to_vec());
    assert_eq!(r, Err(QcError::LengthMismatch { seq_len: 4, qual_len: 3 }));
    acc.add_read(&b"AC".to_vec(), &b"II".to_vec()).unwrap();
    let (q, _) = acc.finish().unwrap();
    assert_eq!(q.seq_position_ns, vec![1, 1]);
}

#[test]
fn quality_below_offset_is_refused() {
    let mut acc = PositionAccumulator::new();
    let r = acc.add_read(&b"ACGT".to_vec(), &b"II I".to_vec());
    assert_eq!(r, Err(QcError::QualityBelowOffset { position: 2, byte: b' ' }));
}

#[test]
fn accumulate_reports_failing_read() {
    let reads = vec![read("AC", "II"), read("ACG", "II"), read("A", "I")];
    match accumulate(&reads) {
        Err((k, e)) => {
            assert_eq!(k, 1);
            assert_eq!(e, QcError::LengthMismatch { seq_len: 3, qual_len: 2 });
        }
        Ok(_) => panic!("a mismatched read was taken"),
    }
    let acc = accumulate(&vec![read("AC", "I!"), read("G", "5")]).unwrap();
    let (q, b) = acc.finish().unwrap();
    assert_eq!(q.seq_position_sums, vec![40 + 20, 0]);
    assert_eq!(b.g_bases, vec![1, 0]);
}

#[test]
fn track_marks_and_whiskers() {
    let row = String::from_utf8(render_track(2, 10, 21, 30, 9 + 9)).unwrap();
    assert_eq!(row.len(), 50);
    // min 2, q1 5, median 10 (21 / 2), q3 15, max 18
    let expected = format!("  <--[    |    ]-->{}", " ".repeat(31));
    assert_eq!(row, expected);
}

#[test]
fn track_median_wins_and_values_clamp() {
    // q1, median and q3 all on column 3: the median mark wins there; max 200 is drawn on column 49
    let row = render_track(0, 6, 6, 6, 200);
    assert_eq!(row.len(), 50);
    assert_eq!(row[0], b'<');
    assert_eq!(row[1], b'-');
    assert_eq!(row[2], b'-');
    assert_eq!(row[3], b'|');
    assert_eq!(row[4], b'-');
    assert_eq!(row[48], b'-');
    assert_eq!(row[49], b'>');
    let row = render_track(60, 120, 130, 140, 70);
    let mut expected = vec![b' '; 49];
    expected.push(b'|');
    assert_eq!(row, expected);
}
