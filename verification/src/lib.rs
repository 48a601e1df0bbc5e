//! Replay of a recorded HTTP access log: each record carries the wall-clock
//! instant of the original access, and the dispatch engine fires it again at
//! that instant shifted by a caller-chosen offset.
//!
//! The crate is organised along the data flow: `shift` parses the offset
//! expression, `record` models one recorded access, `decode` turns raw log
//! text into records, and `engine` decides, for every record, when (and
//! whether) it may still be sent and how the per-record outcomes are
//! assembled into the run's report.

pub mod decode;
pub mod engine;
pub mod record;
pub mod shift;
