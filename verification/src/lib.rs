//! Configuration, MCP synchronisation and session-history logic for the
//! Antigravity CLI (`agy`), verified with Verus.

pub mod paths;
pub mod table;
pub mod text;
pub mod json;
pub mod antigravity_config;
pub mod app_config;
pub mod validation;
pub mod mcp;
pub mod session;
