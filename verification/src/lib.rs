//! Detection of heterogeneous reference positions from read pileups.
//!
//! A scan walks over pileup columns, one per covered reference position. For
//! each column it counts what the reads show ([`tally`]), looks up the
//! reference around the position ([`fasta`], with the homopolymers of
//! [`homopolymer`]), and reports the position if too few reads agree with the
//! reference ([`bam`]). Shares of reads are kept as exact fractions, so the
//! comparison with the threshold of [`args`] has no rounding in it.

pub mod args;
pub mod bam;
pub mod fasta;
pub mod homopolymer;
pub mod tally;
pub mod utils;
