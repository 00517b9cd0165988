//! Verified core of the Pi coding agent.

pub mod canonical;
pub mod connectors;
pub mod decimal;
pub mod error;
pub mod extension_index;
pub mod flake_classifier;
pub mod http_client;
pub mod index;
pub mod json;
pub mod launch;
pub mod models;
pub mod order;
pub mod packages;
pub mod paths;
pub mod session_sqlite;
pub mod text;
pub mod time;
