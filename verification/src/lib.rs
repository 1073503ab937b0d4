//! The decisions behind a coding agent's runtime services, verified with Verus.
//!
//! Input and output, tasks and locks are not part of the crate. A service is a value with its
//! operations: it is told what the outside has answered, and says what to do next.
//!
//! - `plugin_config`: the MCP servers that a plugin declares.
//! - `apps_cache`: the shared tool cache of the Codex Apps server, and its files.
//! - `environment`: the requests that register execution environments.
//! - `session_runtime`, `cell_state`: a code-mode session and the end of its cells.
//! - `skill_catalog`, `skill_scan`: the skills in an environment, how they are found and read.
//! - `json`, `json_members`, `named`, `digest`, `paths`, `text`: what the others are made of.

pub mod apps_cache;
pub mod cell_state;
pub mod digest;
pub mod environment;
pub mod json;
pub mod json_members;
pub mod named;
pub mod paths;
pub mod plugin_config;
pub mod session_runtime;
pub mod skill_catalog;
pub mod skill_scan;
pub mod text;
