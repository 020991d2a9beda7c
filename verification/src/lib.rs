//! Histograms of floating-point samples, built with integer arithmetic.
//!
//! A sample enters the library as the 64 bits of an IEEE 754 binary64 number.
//! The library orders such patterns, finds the least and the greatest sample
//! of a set, and counts how many samples fall into each of a fixed number of
//! equally wide bins. The one step that needs floating-point arithmetic, the
//! quotient `(v - least) / bin_width` of each sample, is the caller's: the
//! caller passes the integer part of it for every sample, and everything
//! that is decided from those numbers is decided here.
//!
//! A histogram is made in three steps:
//!
//! 1. [`sample_set::SampleSet::from_patterns`] takes the samples and finds
//!    their range;
//! 2. the caller computes the quotients from the ends of the range;
//! 3. [`histogram::build_histogram`] counts the samples into the bins.
//!
//! The modules:
//!
//! * [`binary64`]: the bit patterns, their order and what they stand for;
//! * [`extrema`]: the scan for the least and the greatest sample;
//! * [`sample_set`]: a set of samples that a histogram can be made from;
//! * [`tally`]: counting how often each bin is named;
//! * [`histogram`]: the histogram of a sample set, and how it is built;
//! * [`error`]: the ways in which a sample set or a bin count is refused.

pub mod binary64;
pub mod error;
pub mod extrema;
pub mod histogram;
pub mod sample_set;
pub mod tally;
