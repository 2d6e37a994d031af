pub mod ai;
pub mod config;
pub mod json;
pub mod orchestrator;
pub mod pattern;
pub mod plugins;
pub mod text;
pub mod types;
pub mod walker;
