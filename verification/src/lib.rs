//! A log-analysis engine: log lines are parsed into structured records by
//! prioritised regex rules, records are evaluated against a rule catalogue by
//! a stateful threat detector, and alerts are raised when configured patterns
//! occur. Sequential, parallel and distributed drivers feed the same
//! detection core.

pub mod distributed;
pub mod ai_module;
pub mod log_parser;
pub mod log_processor;
pub mod models;
pub mod parallel_analysis;
pub mod patterns;
pub mod rules_engine;
pub mod sequential_analysis;
pub mod tables;
pub mod text;
pub mod threat_detection;
pub mod timeutil;
pub mod utils;
