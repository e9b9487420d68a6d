//! Context compaction for agent sessions.

pub mod api;
pub mod api_laws;
pub mod archive;
pub mod collapse;
pub mod compactor;
pub mod config;
pub mod config_laws;
pub mod dedup;
pub mod digest;
pub mod file_laws;
pub mod files;
pub mod laws;
pub mod model;
pub mod model_laws;
pub mod outcome_laws;
pub mod parse;
pub mod parse_laws;
pub mod paths;
pub mod scan_laws;
pub mod scanner;
pub mod store;
pub mod store_laws;
pub mod strategy;
pub mod text;
pub mod text_laws;
pub mod time;

pub use compactor::{
    compact_session, parse_session_text, CompactionError, CompactionMetrics, CompactionResult,
    Session, SessionId, ToolCall, Turn, TurnId,
};
pub use config::Config;
