//! The optimizer.
pub mod config;
