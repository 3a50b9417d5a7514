//! Incremental tailer for a JSON-formatted access log, with verified
//! aggregation of per-request statistics.
//!
//! The crate tracks how much of the log file has already been consumed,
//! detects truncation or rotation by a shrinking file size, decodes each
//! newly appended line into a request record, and folds the records into a
//! store of monotonically non-decreasing counters and fixed-bucket
//! histograms. File handling and the HTTP transport live outside; they feed
//! observed sizes and line lists into the functions here.

pub mod decode;
pub mod hist;
pub mod ingest;
pub mod laws;
pub mod num;
pub mod stats;
pub mod tail;

pub use decode::DecodeError;
pub use decode::Method;
pub use decode::RequestRecord;
pub use decode::decode_line;
pub use decode::method_of;
pub use hist::Hist;
pub use ingest::LineInput;
pub use ingest::ingest_lines;
pub use num::parse_micros;
pub use stats::LabelKey;
pub use stats::LabelStats;
pub use stats::Stats;
pub use tail::TailState;
