//! A verified core for a task-execution engine around the `winget`
//! command-line tool.
//!
//! The crate covers the pure logic of the engine: building argument vectors
//! from a declarative command description, tracking running tasks in a
//! registry keyed by task id, ordering the notification events of one task,
//! classifying process exits (including the tool's benign nonzero exit
//! codes), normalizing captured console output, and parsing the tool's
//! tabular and key-value text output.  Process spawning, pipe draining and
//! event delivery are left to a thin unverified shell around this crate.

pub mod command;
pub mod details;
pub mod events;
pub mod models;
pub mod normalize;
pub mod outcome;
pub mod registry;
pub mod search;
pub mod settings;
pub mod strutil;
pub mod table;
