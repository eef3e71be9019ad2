//! Reduces hourly archives of public forge activity to committer facts or
//! repository name mappings, and renders them as batched SQL statements.
pub mod text;
pub mod timestamp;
pub mod types;
pub mod compact;
pub mod sql;
pub mod engine;
pub mod export;
pub mod pipeline;
