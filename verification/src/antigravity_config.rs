//! The Antigravity CLI configuration files and their contents.
//!
//! - `<home>/.gemini/antigravity-cli/settings.json`: main settings
//! - `<home>/.gemini/antigravity-cli/mcp_config.json`: MCP server configuration
//! - `<home>/.gemini/antigravity-cli/skills/`: skills directory
//!
//! The home directory is read by the caller and handed in.

use vstd::prelude::*;
use crate::json::JsonValue;
use crate::paths::{join_path, spec_join};
use crate::table::Table;

verus! {

/// `<home>/.gemini/antigravity-cli`.
pub open spec fn spec_antigravity_dir(home: Seq<char>) -> Seq<char> {
    spec_join(spec_join(home, ".gemini"@), "antigravity-cli"@)
}

/// The Antigravity CLI configuration directory: `<home>/.gemini/antigravity-cli/`.
pub fn get_antigravity_dir(home: &str) -> (r: String)
    ensures
        r@ == spec_antigravity_dir(home@),
{
    let gemini = join_path(home, ".gemini");
    join_path(gemini.as_str(), "antigravity-cli")
}

/// The main settings file: `<dir>/settings.json`.
pub fn get_antigravity_settings_path(home: &str) -> (r: String)
    ensures
        r@ == spec_join(spec_antigravity_dir(home@), "settings.json"@),
{
    let dir = get_antigravity_dir(home);
    join_path(dir.as_str(), "settings.json")
}

/// The MCP configuration file: `<dir>/mcp_config.json`.
pub fn get_antigravity_mcp_config_path(home: &str) -> (r: String)
    ensures
        r@ == spec_join(spec_antigravity_dir(home@), "mcp_config.json"@),
{
    let dir = get_antigravity_dir(home);
    join_path(dir.as_str(), "mcp_config.json")
}

/// The skills directory: `<dir>/skills`.
pub fn get_antigravity_skills_dir(home: &str) -> (r: String)
    ensures
        r@ == spec_join(spec_antigravity_dir(home@), "skills"@),
{
    let dir = get_antigravity_dir(home);
    join_path(dir.as_str(), "skills")
}

/// The contents of `settings.json`.
///
/// Known fields are named; every other member of the file is kept in `extra`
/// so that writing the settings back loses nothing.
#[derive(Debug)]
pub struct AntigravitySettings {
    /// The selected model.
    pub model: Option<String>,
    /// The colour scheme (`"dark"`, `"light"` or `"system"`).
    pub color_scheme: Option<String>,
    /// The trusted workspaces.
    pub trusted_workspaces: Vec<String>,
    /// The API base URL, for a custom endpoint or a proxy.
    pub base_url: Option<String>,
    /// The name of the environment variable that holds the API key.
    pub env_key: Option<String>,
    /// Every other member of the file, in order.
    pub extra: Vec<(String, JsonValue)>,
}

impl Default for AntigravitySettings {
    fn default() -> (s: Self)
        ensures
            s.model is None,
            s.color_scheme is None,
            s.trusted_workspaces@.len() == 0,
            s.base_url is None,
            s.env_key is None,
            s.extra@.len() == 0,
    {
        AntigravitySettings {
            model: None,
            color_scheme: None,
            trusted_workspaces: Vec::new(),
            base_url: None,
            env_key: None,
            extra: Vec::new(),
        }
    }
}

/// One MCP server of `mcp_config.json`.
#[derive(Debug)]
pub struct AntigravityMcpServer {
    pub command: String,
    pub args: Vec<String>,
    pub env: Table<String>,
    /// Timeout in milliseconds.
    pub timeout: Option<u64>,
}

/// The contents of `mcp_config.json`: the MCP servers by id.
#[derive(Debug)]
pub struct AntigravityMcpConfig {
    pub mcp_servers: Table<AntigravityMcpServer>,
}

impl Default for AntigravityMcpConfig {
    fn default() -> (c: Self)
        ensures
            c.mcp_servers@ == Map::<Seq<char>, AntigravityMcpServer>::empty(),
    {
        AntigravityMcpConfig { mcp_servers: Table::new() }
    }
}


/// The conversation history: `<dir>/history.jsonl`.
pub fn get_antigravity_history_path(home: &str) -> (r: String)
    ensures
        r@ == spec_join(spec_antigravity_dir(home@), "history.jsonl"@),
{
    let dir = get_antigravity_dir(home);
    join_path(dir.as_str(), "history.jsonl")
}

/// The transcript of a conversation:
/// `<dir>/brain/<id>/.system_generated/logs/transcript.jsonl`.
pub fn get_antigravity_transcript_path(home: &str, conv_id: &str) -> (r: String)
    ensures
        r@ == spec_join(
            spec_join(
                spec_join(
                    spec_join(spec_join(spec_antigravity_dir(home@), "brain"@), conv_id@),
                    ".system_generated"@,
                ),
                "logs"@,
            ),
            "transcript.jsonl"@,
        ),
{
    let dir = get_antigravity_dir(home);
    let brain = join_path(dir.as_str(), "brain");
    let conv = join_path(brain.as_str(), conv_id);
    let generated = join_path(conv.as_str(), ".system_generated");
    let logs = join_path(generated.as_str(), "logs");
    join_path(logs.as_str(), "transcript.jsonl")
}

/// The stored conversation of a session: `<dir>/conversations/<id>.pb`.
pub fn get_antigravity_conversation_pb_path(home: &str, session_id: &str) -> (r: String)
    ensures
        r@ == spec_join(spec_join(spec_antigravity_dir(home@), "conversations"@), session_id@ + ".pb"@),
{
    let dir = get_antigravity_dir(home);
    let convs = join_path(dir.as_str(), "conversations");
    let mut file = session_id.to_owned();
    file.append(".pb");
    join_path(convs.as_str(), file.as_str())
}

} // verus!
