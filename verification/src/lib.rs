//! The decision logic of a development-loop supervisor.

pub mod banner;
pub mod browser_reload;
pub mod commands;
pub mod config;
pub mod docs;
pub mod engine;
pub mod env_expand;
pub mod external_events;
pub mod forward;
pub mod graph;
pub mod hooks;
pub mod json;
pub mod lines;
pub mod markdown;
pub mod name_map;
pub mod output;
pub mod output_rules;
pub mod paths;
pub mod patterns;
pub mod probes;
pub mod process_guardian;
pub mod process_manager;
pub mod render;
pub mod runtime;
pub mod session_log;
pub mod state;
pub mod supervisor;
pub mod template;
pub mod termination;
pub mod text;
pub mod validate;
pub mod value;
pub mod watch;
pub mod workflow;
