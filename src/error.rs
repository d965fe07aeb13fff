//! What can go wrong while turning reads into statistics.

use vstd::prelude::*;

verus! {

/// The ways in which reads can fail to yield a report.
#[derive(Debug, Clone, Copy, PartialEq, Eq, Structural)]
pub enum QcError {
    /// No read reached any position, so there is no column to describe.
    EmptyInput,
    /// A read whose quality string is not as long as its sequence.
    LengthMismatch { seq_len: usize, qual_len: usize },
    /// A quality byte below the Phred+33 offset.
    QualityBelowOffset { position: usize, byte: u8 },
}

} // verus!
