//! The static analyzer.
pub mod config;
