//! The gateway to media providers.
pub mod types;
