//! Cleaning pipeline for trend-measurement records: validation, timestamp
//! deduplication, removal of non-positive measurements and rescaling into the
//! 0..100 range, together with the plain data types of the posts service.
pub mod types;
pub mod validate;
pub mod dedup;
pub mod pipeline;
pub mod limiter;
