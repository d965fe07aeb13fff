//! Per-position quality and base-composition statistics over sequencing reads.

pub mod error;
pub mod accumulate;
pub mod bases;
pub mod stats;
pub mod track;
