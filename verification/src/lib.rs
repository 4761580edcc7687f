pub mod cache;
pub mod counters;
pub mod ingest;
pub mod laws;
pub mod parse;
pub mod task;
pub mod value;
