//! Latency statistics, report layout and configuration logic for comparing
//! Solana transaction stream endpoints.

pub mod collector;
pub mod config;
pub mod html;
pub mod laws;
pub mod meta;
pub mod observation;
pub mod report;
pub mod stats;
pub mod terminal;
pub mod text;
