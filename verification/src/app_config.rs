//! The part of the application's own configuration (`config.json`) that the
//! Antigravity synchronisation reads and writes.

use vstd::prelude::*;
use crate::json::JsonValue;
use crate::table::Table;

verus! {

/// For which applications an MCP server is enabled.
#[derive(Debug, Clone, Copy)]
pub struct McpApps {
    pub claude: bool,
    pub codex: bool,
    pub gemini: bool,
    pub opencode: bool,
    pub hermes: bool,
    pub antigravity: bool,
}

/// An MCP server of the unified configuration.
#[derive(Debug)]
pub struct McpServer {
    pub id: String,
    pub name: String,
    /// The connection definition (`type`, `command`, `args`, `env`, ...).
    pub server: JsonValue,
    pub apps: McpApps,
    pub description: Option<String>,
    pub homepage: Option<String>,
    pub docs: Option<String>,
    pub tags: Vec<String>,
}

/// The per-application MCP section of the legacy layout: entries by id,
/// each an object with an `enabled` flag and a `server` definition.
#[derive(Debug)]
pub struct McpAppSection {
    pub servers: Table<JsonValue>,
}

/// The MCP part of the configuration.
#[derive(Debug)]
pub struct McpRoot {
    /// The unified MCP servers by id, once there are any.
    pub servers: Option<Table<McpServer>>,
    /// The Gemini section, which the Antigravity synchronisation reads.
    pub gemini: McpAppSection,
}

/// The application configuration.
#[derive(Debug)]
pub struct MultiAppConfig {
    pub mcp: McpRoot,
}

} // verus!
