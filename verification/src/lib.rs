//! Runtime core of a desktop supervisor for long-running coding-agent
//! processes: a session registry with at-most-one process per session, a
//! stream dispatcher that decodes the agent's newline-delimited JSON output,
//! and a permission broker that correlates tool-use permission requests with
//! their resolutions.

pub mod json;
pub mod messages;
pub mod registry;
pub mod dispatch;
pub mod permissions;
pub mod diff;
pub mod store;
pub mod sessions;
pub mod config;
pub mod launch;
