//! Generation of the media that a production needs.
pub mod binder;
pub mod binding;
pub mod commands;
pub mod figures;
pub mod run;
pub mod scheduler;
pub mod transaction;
pub mod types;

pub use types::{AssetKind, AssetQueue, AssetTask, AssetTaskStatus};
