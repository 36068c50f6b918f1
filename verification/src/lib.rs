//! Verified core of a story-production backend.
pub mod agent_harness;
pub mod agents;
pub mod ai;
pub mod asset_queue;
pub mod assets;
pub mod change_set_commit;
pub mod characters;
pub mod codec;
pub mod flow_edit_lock;
pub mod json;
pub mod json_store;
pub mod order;
pub mod path_order;
pub mod paths;
pub mod pipeline;
pub mod project;
pub mod story_plan;
pub mod text;
pub mod text_map;
pub mod webgal;
