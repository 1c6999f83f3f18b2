//! A persistent job queue: queue and job models, the job-state engine with its
//! reconciliation passes, configuration records, storage key names, the
//! contingency log's file layout, and the answers of the HTTP endpoints.
pub mod models;
pub mod duration_text;
pub mod job;
pub mod engine;
pub mod text;
pub mod keys;
pub mod config;
pub mod handlers;
pub mod wal;
