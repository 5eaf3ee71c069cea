//! Scans a game prototype's attributes against a table of known vulnerabilities.

pub mod analyzer;
pub mod string_map;
pub mod text;
pub mod vulnerability_db;

pub use text::is_whitespace_char;
pub use string_map::StringMap;
pub use vulnerability_db::VulnerabilityDB;
pub use analyzer::{Analyzer, AnalyzerConfig, GamePrototype, IoError};
