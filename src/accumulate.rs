//! The position accumulator: takes reads one at a time and grows, per
//! position, a column of decoded quality scores and a tally of bases.

use crate::bases::{base_kind, classify_base, create_base_by_position_report, BaseByPosition, BaseKind, BaseTally};
use crate::error::QcError;
use crate::stats::{columns_view, create_quality_by_pos_report, QualityByPosition};
use vstd::prelude::*;

verus! {

/// A read as sequence bytes and quality bytes, as a pair of sequences.
pub type ReadModel = (Seq<u8>, Seq<u8>);

/// The offset of Phred+33 quality encoding.
pub const PHRED_OFFSET: u8 = 33;

/// A quality byte decoded: the byte minus 33.
pub open spec fn decode(q: u8) -> u32 {
    (q - 33) as u32
}

/// The largest read length among `reads`: the number of positions.
pub open spec fn width(reads: Seq<ReadModel>) -> int
    decreases reads.len(),
{
    if reads.len() == 0 {
        0
    } else {
        let w = width(reads.drop_last());
        let n = reads.last().1.len() as int;
        if n > w {
            n
        } else {
            w
        }
    }
}

/// Column `i`: the decoded quality at index `i` of every read longer than
/// `i`, in arrival order.
pub open spec fn quality_column(reads: Seq<ReadModel>, i: int) -> Seq<u32>
    decreases reads.len(),
{
    if reads.len() == 0 {
        Seq::empty()
    } else {
        let prev = quality_column(reads.drop_last(), i);
        let q = reads.last().1;
        if 0 <= i < q.len() {
            prev.push(decode(q[i]))
        } else {
            prev
        }
    }
}

/// The number of reads longer than `i` whose base at index `i` is of kind `k`.
pub open spec fn base_count(reads: Seq<ReadModel>, i: int, k: BaseKind) -> int
    decreases reads.len(),
{
    if reads.len() == 0 {
        0
    } else {
        let prev = base_count(reads.drop_last(), i, k);
        let s = reads.last().0;
        if 0 <= i < s.len() && base_kind(s[i]) == k {
            prev + 1
        } else {
            prev
        }
    }
}

/// The quality columns of all positions.
pub open spec fn quality_columns(reads: Seq<ReadModel>) -> Seq<Seq<u32>> {
    Seq::new(width(reads) as nat, |i: int| quality_column(reads, i))
}

/// A read the accumulator takes: quality as long as the sequence and every
/// quality byte at least 33.
pub open spec fn read_ok(seq: Seq<u8>, qual: Seq<u8>) -> bool {
    &&& seq.len() == qual.len()
    &&& forall|j: int| 0 <= j < qual.len() ==> #[trigger] qual[j] >= 33
}

/// Why a read that is not `read_ok` is refused: a length mismatch when the
/// lengths differ, else the first quality byte below 33 and its index.
pub open spec fn refusal(seq: Seq<u8>, qual: Seq<u8>, e: QcError) -> bool {
    if seq.len() != qual.len() {
        e == QcError::LengthMismatch { seq_len: seq.len() as usize, qual_len: qual.len() as usize }
    } else {
        match e {
            QcError::QualityBelowOffset { position, byte } => {
                &&& position < qual.len()
                &&& byte == qual[position as int]
                &&& byte < 33
                &&& forall|j: int| 0 <= j < position ==> #[trigger] qual[j] >= 33
            },
            _ => false,
        }
    }
}

/// Per-position quality columns and base tallies of the reads taken so far.
pub struct PositionAccumulator {
    columns: Vec<Vec<u32>>,
    tallies: Vec<BaseTally>,
    reads: Ghost<Seq<ReadModel>>,
}

impl PositionAccumulator {
    /// The reads taken so far, in order.
    pub closed spec fn reads(&self) -> Seq<ReadModel> {
        self.reads@
    }

    /// Columns and tallies are those of the reads taken so far; every tally
    /// counts as many bases as its column holds values, at least one.
    pub closed spec fn wf(&self) -> bool {
        &&& self.columns@.len() == width(self.reads@)
        &&& self.tallies@.len() == width(self.reads@)
        &&& forall|j: int| 0 <= j < self.reads@.len() ==> {
            let r = #[trigger] self.reads@[j];
            read_ok(r.0, r.1)
        }
        &&& forall|i: int|
            0 <= i < width(self.reads@) ==> {
                &&& #[trigger] self.columns@[i]@ == quality_column(self.reads@, i)
                &&& self.tallies@[i].total() == self.columns@[i]@.len()
                &&& self.columns@[i]@.len() >= 1
                &&& forall|k: BaseKind| #[trigger] self.tallies@[i].count(k) == base_count(self.reads@, i, k)
            }
    }

    /// An accumulator that has taken no read.
    pub fn new() -> (r: PositionAccumulator)
        ensures
            r.wf(),
            r.reads() == Seq::<ReadModel>::empty(),
    {
        PositionAccumulator { columns: Vec::new(), tallies: Vec::new(), reads: Ghost(Seq::empty()) }
    }
}

/// Past the longest read a column is empty and a tally counts nothing.
proof fn lemma_beyond_width(reads: Seq<ReadModel>, i: int)
    requires
        i >= width(reads),
        forall|j: int| 0 <= j < reads.len() ==> {
            let r = #[trigger] reads[j];
            read_ok(r.0, r.1)
        },
    ensures
        quality_column(reads, i) == Seq::<u32>::empty(),
        forall|k: BaseKind| #[trigger] base_count(reads, i, k) == 0,
    decreases reads.len(),
{
    if reads.len() > 0 {
        let prev = reads.drop_last();
        assert forall|j: int| 0 <= j < prev.len() implies {
            let r = #[trigger] prev[j];
            read_ok(r.0, r.1)
        } by {
            assert(prev[j] == reads[j]);
        }
        lemma_beyond_width(prev, i);
        let last = reads[reads.len() - 1];
        assert(read_ok(last.0, last.1));
        assert forall|k: BaseKind| #[trigger] base_count(reads, i, k) == 0 by {
            assert(base_count(prev, i, k) == 0);
        }
    }
}

impl PositionAccumulator {
    /// Takes one read: appends the decoded quality at each index `i` of the
    /// read to column `i` and counts its base at `i` in tally `i`, creating
    /// the column and the tally when the read is the first to reach `i`.
    /// A read of length 0 adds nothing. A read whose quality is not as long as
    /// its sequence, or holds a byte below 33, is refused and nothing changes.
    pub fn add_read(&mut self, seq: &Vec<u8>, qual: &Vec<u8>) -> (r: Result<(), QcError>)
        requires
            old(self).wf(),
        ensures
            final(self).wf(),
            r is Ok <==> read_ok(seq@, qual@),
            r is Ok ==> final(self).reads() == old(self).reads().push((seq@, qual@)),
            r is Err ==> final(self).reads() == old(self).reads(),
            r matches Err(e) ==> refusal(seq@, qual@, e),
    {
        if seq.len() != qual.len() {
            return Err(QcError::LengthMismatch { seq_len: seq.len(), qual_len: qual.len() });
        }
        let n = qual.len();
        let mut j: usize = 0;
        while j < n
            invariant
                n == qual@.len(),
                n == seq@.len(),
                self.wf(),
                self.reads@ == old(self).reads@,
                0 <= j <= n,
                forall|x: int| 0 <= x < j ==> #[trigger] qual@[x] >= 33,
            decreases n - j,
        {
            if qual[j] < PHRED_OFFSET {
                return Err(QcError::QualityBelowOffset { position: j, byte: qual[j] });
            }
            j = j + 1;
        }
        let ghost old_reads = self.reads@;
        let ghost new_reads = old_reads.push((seq@, qual@));
        let ghost w0 = width(old_reads);
        proof {
            assert(new_reads.drop_last() == old_reads);
        }
        let mut i: usize = 0;
        while i < n
            invariant
                n == qual@.len(),
                n == seq@.len(),
                read_ok(seq@, qual@),
                self.reads@ == old_reads,
                old_reads == old(self).reads@,
                new_reads == old_reads.push((seq@, qual@)),
                new_reads.drop_last() == old_reads,
                w0 == width(old_reads),
                0 <= i <= n,
                self.columns@.len() == if i > w0 { i as int } else { w0 },
                self.tallies@.len() == self.columns@.len(),
                forall|x: int| 0 <= x < old_reads.len() ==> {
                    let r = #[trigger] old_reads[x];
                    read_ok(r.0, r.1)
                },
                forall|p: int|
                    0 <= p < i ==> {
                        &&& #[trigger] self.columns@[p]@ == quality_column(new_reads, p)
                        &&& self.tallies@[p].total() == self.columns@[p]@.len()
                        &&& self.columns@[p]@.len() >= 1
                        &&& forall|k: BaseKind| #[trigger] self.tallies@[p].count(k) == base_count(new_reads, p, k)
                    },
                forall|p: int|
                    i <= p < w0 ==> {
                        &&& #[trigger] self.columns@[p]@ == quality_column(old_reads, p)
                        &&& self.tallies@[p].total() == self.columns@[p]@.len()
                        &&& self.columns@[p]@.len() >= 1
                        &&& forall|k: BaseKind| #[trigger] self.tallies@[p].count(k) == base_count(old_reads, p, k)
                    },
            decreases n - i,
        {
            let q = (qual[i] - PHRED_OFFSET) as u32;
            let kind = classify_base(seq[i]);
            let ghost ii = i as int;
            proof {
                assert(quality_column(new_reads, ii) == quality_column(old_reads, ii).push(decode(qual@[ii])));
                assert(forall|k: BaseKind| #[trigger] base_count(new_reads, ii, k) == base_count(old_reads, ii, k)
                    + if base_kind(seq@[ii]) == k { 1int } else { 0int });
            }
            if i < self.columns.len() {
                self.columns[i].push(q);
                proof {
                    assert(self.columns@[ii]@.len() == self.columns@[ii].len());
                }
                self.tallies[i].bump(kind);
                proof {
                    assert(self.columns@[ii]@ == quality_column(new_reads, ii));
                    assert forall|k: BaseKind| #[trigger] self.tallies@[ii].count(k) == base_count(new_reads, ii, k) by {
                        if k == kind {
                        } else {
                        }
                    }
                }
            } else {
                proof {
                    lemma_beyond_width(old_reads, ii);
                }
                let mut col: Vec<u32> = Vec::new();
                col.push(q);
                self.columns.push(col);
                let mut tally = BaseTally::zero();
                tally.bump(kind);
                self.tallies.push(tally);
                proof {
                    assert(self.columns@[ii]@ =~= quality_column(new_reads, ii));
                    assert forall|k: BaseKind| #[trigger] self.tallies@[ii].count(k) == base_count(new_reads, ii, k) by {
                        if k == kind {
                        } else {
                        }
                    }
                }
            }
            i = i + 1;
        }
        proof {
            let w1 = width(new_reads);
            assert(w1 == if n > w0 { n as int } else { w0 });
            assert forall|p: int| n <= p < w0 implies quality_column(new_reads, p) == quality_column(old_reads, p)
                && forall|k: BaseKind| #[trigger] base_count(new_reads, p, k) == base_count(old_reads, p, k) by {
            }
            assert forall|x: int| 0 <= x < new_reads.len() implies {
                let r = #[trigger] new_reads[x];
                read_ok(r.0, r.1)
            } by {
                if x < old_reads.len() {
                    assert(new_reads[x] == old_reads[x]);
                }
            }
        }
        self.reads = Ghost(new_reads);
        Ok(())
    }
}

impl PositionAccumulator {
    /// Hands the columns and tallies over to the two reducers. Fails with
    /// `EmptyInput` when no read reached any position (in particular when no
    /// read was taken).
    pub fn finish(self) -> (r: Result<(QualityByPosition, BaseByPosition), QcError>)
        requires
            self.wf(),
        ensures
            r is Err <==> width(self.reads()) == 0,
            r is Err ==> r == Err::<(QualityByPosition, BaseByPosition), QcError>(QcError::EmptyInput),
            r matches Ok((q, b)) ==> {
                &&& q.wf()
                &&& q.describes(quality_columns(self.reads()))
                &&& b.wf()
                &&& b.len() == width(self.reads())
                &&& forall|i: int, k: BaseKind|
                    0 <= i < b.len() ==> #[trigger] b.tally_at(i).count(k) == base_count(self.reads(), i, k)
            },
    {
        let ghost reads = self.reads@;
        let PositionAccumulator { columns, tallies, reads: _ } = self;
        proof {
            assert(columns_view(columns@) =~= quality_columns(reads));
        }
        if columns.len() == 0 {
            return Err(QcError::EmptyInput);
        }
        let ghost tl = tallies@;
        let ghost cv = columns@;
        proof {
            assert forall|i: int| 0 <= i < tl.len() implies 1 <= #[trigger] tl[i].total() <= usize::MAX
                && forall|k: BaseKind| #[trigger] tl[i].count(k) == base_count(reads, i, k) by {
                assert(cv[i]@ == quality_column(reads, i));
                assert(cv[i]@.len() == cv[i].len());
            }
        }
        let quality = create_quality_by_pos_report(columns);
        let bases = create_base_by_position_report(tallies);
        match quality {
            Ok(q) => {
                proof {
                    assert forall|i: int| 0 <= i < bases.len() implies 1 <= #[trigger] bases.tally_at(i).total()
                        <= usize::MAX by {
                        assert(bases.tally_at(i) == tl[i]);
                    }
                    assert forall|i: int, k: BaseKind|
                        0 <= i < bases.len() implies #[trigger] bases.tally_at(i).count(k) == base_count(reads, i, k) by {
                        assert(bases.tally_at(i) == tl[i]);
                        assert(1 <= tl[i].total());
                        assert(tl[i].count(k) == base_count(reads, i, k));
                    }
                }
                Ok((q, bases))
            },
            Err(e) => Err(e),
        }
    }
}

/// A read: its bases and their Phred+33 quality bytes.
pub struct Read {
    pub seq: Vec<u8>,
    pub qual: Vec<u8>,
}

/// The models of a list of reads.
pub open spec fn read_models(reads: Seq<Read>) -> Seq<ReadModel> {
    reads.map_values(|r: Read| (r.seq@, r.qual@))
}

/// Feeds every read, in order, to a new accumulator. Stops at the first read
/// the accumulator refuses and gives its index with the reason.
pub fn accumulate(reads: &Vec<Read>) -> (r: Result<PositionAccumulator, (usize, QcError)>)
    ensures
        r is Ok <==> forall|j: int| 0 <= j < reads@.len() ==> read_ok(#[trigger] reads@[j].seq@, reads@[j].qual@),
        r matches Ok(acc) ==> acc.wf() && acc.reads() == read_models(reads@),
        r matches Err((k, e)) ==> {
            &&& k < reads@.len()
            &&& !read_ok(reads@[k as int].seq@, reads@[k as int].qual@)
            &&& forall|j: int| 0 <= j < k ==> read_ok(#[trigger] reads@[j].seq@, reads@[j].qual@)
            &&& refusal(reads@[k as int].seq@, reads@[k as int].qual@, e)
        },
{
    let mut acc = PositionAccumulator::new();
    let mut k: usize = 0;
    while k < reads.len()
        invariant
            0 <= k <= reads@.len(),
            acc.wf(),
            acc.reads() == read_models(reads@.take(k as int)),
            forall|j: int| 0 <= j < k ==> read_ok(#[trigger] reads@[j].seq@, reads@[j].qual@),
        decreases reads@.len() - k,
    {
        let read = &reads[k];
        match acc.add_read(&read.seq, &read.qual) {
            Ok(()) => {},
            Err(e) => {
                return Err((k, e));
            },
        }
        proof {
            assert(read_models(reads@.take(k + 1)) =~= read_models(reads@.take(k as int)).push(
                (read.seq@, read.qual@),
            ));
        }
        k = k + 1;
    }
    proof {
        assert(reads@.take(reads@.len() as int) =~= reads@);
    }
    Ok(acc)
}

} // verus!
