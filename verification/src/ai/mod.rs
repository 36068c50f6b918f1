//! The assistant: its providers, its runs, its changes and its uploads.
pub mod batch_tts_transaction;
pub mod change_set;
pub mod chat_runs;
pub mod config;
pub mod edits;
pub mod gateway;
pub mod media_fetch;
pub mod provider_capability;
pub mod safe_media_fetch;
pub mod secrets;
pub mod uploads;
