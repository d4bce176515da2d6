//! Verified core of a directory scanner that extracts an embedded numeric
//! rating from text files.
//!
//! The library covers the logic of the scanner: classifying a file's content
//! into a three-state outcome, the canonical ordering of results, the
//! bookkeeping of a scan in flight, the result set with its unique-path
//! invariant, and the decisions of the deletion workflow. Directory walking,
//! file reading, the worker pool and the channels are driven by an unverified
//! shell that hands plain values in and out.

pub mod deletion;
pub mod discover;
pub mod extract;
pub mod order;
pub mod outcome;
pub mod results;
pub mod scan;
pub mod text;
