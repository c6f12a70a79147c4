//! Verified core of the Ossido vs Next.js benchmark harness.
pub mod benchmarks;
pub mod build_cmd;
pub mod cli;
pub mod config;
pub mod index;
pub mod json;
pub mod load;
pub mod mem_report;
pub mod order;
pub mod paths;
pub mod server;
pub mod sys;
pub mod text;
pub mod version_cmd;
