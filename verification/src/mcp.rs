//! Synchronisation of MCP servers between the unified configuration and the
//! Antigravity CLI's `mcp_config.json`.
//!
//! Reading and writing the files, and checking that the Antigravity directory
//! exists, are the caller's part: these functions take the file contents and
//! return, or update in place, what is to be written back.

use vstd::prelude::*;
use crate::antigravity_config::{AntigravityMcpConfig, AntigravityMcpServer};
use crate::app_config::{McpApps, McpServer, MultiAppConfig};
use crate::json::{
    JsonNumber, JsonValue, get_field, obj_get, str_of, string_entries, string_items,
    string_items_of, string_table,
};
use crate::table::{Table, map_of};
use crate::text::trim;
use crate::validation::{
    extract_server_spec, spec_extract_server, spec_server_spec_valid, validate_server_spec,
};

verus! {

/// The startup timeout used when a definition gives none, in milliseconds.
pub const DEFAULT_STARTUP_MS: u64 = 10_000;

/// The tool timeout used when a definition gives none, in milliseconds.
pub const DEFAULT_TOOL_MS: u64 = 60_000;

/// Why a connection definition cannot become an Antigravity server.
#[derive(Debug)]
pub enum McpError {
    /// The definition of the server with this id is not an object.
    NotAnObject(String),
    /// The definition of the server with this id has no string `command`.
    MissingCommand(String),
}

impl McpError {
    /// The message shown to the user.
    pub fn message(&self) -> (m: String)
        ensures
            match self {
                McpError::NotAnObject(id) => m@ == "MCP 服务器 '"@ + id@ + "' 不是对象"@,
                McpError::MissingCommand(id) => m@ == "MCP 服务器 '"@ + id@ + "' 缺少 command 字段"@,
            },
    {
        let mut m = String::from_str("MCP 服务器 '");
        match self {
            McpError::NotAnObject(id) => {
                m.append(id.as_str());
                m.append("' 不是对象");
            },
            McpError::MissingCommand(id) => {
                m.append(id.as_str());
                m.append("' 缺少 command 字段");
            },
        }
        m
    }
}

/// The members that a conversion reads: those of the definition, or of its
/// `server` member when that is an object. `None` when the definition is not
/// an object.
pub open spec fn server_fields(spec: JsonValue) -> Option<Seq<(String, JsonValue)>> {
    match spec {
        JsonValue::Object(fields) => Some(
            match obj_get(fields@, "server"@) {
                Some(JsonValue::Object(inner)) => inner@,
                _ => fields@,
            },
        ),
        _ => None,
    }
}

/// The `command` text.
pub open spec fn command_of(f: Seq<(String, JsonValue)>) -> Option<Seq<char>> {
    str_of(obj_get(f, "command"@))
}

/// The string elements of `args`; none when `args` is not an array.
pub open spec fn args_of(f: Seq<(String, JsonValue)>) -> Seq<String> {
    match obj_get(f, "args"@) {
        Some(JsonValue::Array(items)) => string_items(items@),
        _ => Seq::empty(),
    }
}

/// The string-valued members of `env`; none when `env` is not an object.
pub open spec fn env_of(f: Seq<(String, JsonValue)>) -> Map<Seq<char>, String> {
    match obj_get(f, "env"@) {
        Some(JsonValue::Object(o)) => map_of(string_entries(o@)),
        _ => Map::empty(),
    }
}

/// A timeout given in seconds, in milliseconds: an unsigned integer times
/// 1000 (wrapping on overflow, as the release build computes it), a negative
/// integer as 0, any other number by its saturating `(f * 1000.0) as u64`.
pub open spec fn seconds_reading(v: Option<JsonValue>) -> Option<u64> {
    match v {
        Some(JsonValue::Number(JsonNumber::PosInt(x))) => Some(
            ((x as nat * 1000) % 0x1_0000_0000_0000_0000) as u64,
        ),
        Some(JsonValue::Number(JsonNumber::NegInt(_))) => Some(0),
        Some(JsonValue::Number(JsonNumber::Float(f))) => Some(f.thousandfold),
        _ => None,
    }
}

/// A timeout given in milliseconds: an unsigned integer as it is, a negative
/// integer as 0, any other number by its saturating `f as u64`.
pub open spec fn millis_reading(v: Option<JsonValue>) -> Option<u64> {
    match v {
        Some(JsonValue::Number(JsonNumber::PosInt(x))) => Some(x),
        Some(JsonValue::Number(JsonNumber::NegInt(_))) => Some(0),
        Some(JsonValue::Number(JsonNumber::Float(f))) => Some(f.truncated),
        _ => None,
    }
}

/// A timeout from `<prefix>_sec`, else from `<prefix>_ms`, else `default`.
pub open spec fn timeout_from(
    f: Seq<(String, JsonValue)>,
    sec_key: Seq<char>,
    ms_key: Seq<char>,
    default: u64,
) -> u64 {
    match seconds_reading(obj_get(f, sec_key)) {
        Some(t) => t,
        None => match millis_reading(obj_get(f, ms_key)) {
            Some(t) => t,
            None => default,
        },
    }
}

/// The startup timeout of a definition, in milliseconds.
pub open spec fn startup_ms_of(f: Seq<(String, JsonValue)>) -> u64 {
    timeout_from(f, "startup_timeout_sec"@, "startup_timeout_ms"@, DEFAULT_STARTUP_MS)
}

/// The tool timeout of a definition, in milliseconds.
pub open spec fn tool_ms_of(f: Seq<(String, JsonValue)>) -> u64 {
    timeout_from(f, "tool_timeout_sec"@, "tool_timeout_ms"@, DEFAULT_TOOL_MS)
}

/// The timeout of the Antigravity server: the larger of the two.
pub open spec fn timeout_of(f: Seq<(String, JsonValue)>) -> u64 {
    let a = startup_ms_of(f);
    let b = tool_ms_of(f);
    if a >= b {
        a
    } else {
        b
    }
}

/// A definition can be converted: it is an object with a string `command`.
pub open spec fn converts(spec: JsonValue) -> bool {
    match server_fields(spec) {
        Some(f) => command_of(f) is Some,
        None => false,
    }
}

/// `s` is what converting the definition `spec` gives.
pub open spec fn is_conversion_of(s: AntigravityMcpServer, spec: JsonValue) -> bool {
    match server_fields(spec) {
        Some(f) => {
            &&& command_of(f) == Some(s.command@)
            &&& s.args@ == args_of(f)
            &&& s.env@ == env_of(f)
            &&& s.timeout == Some(timeout_of(f))
        },
        None => false,
    }
}

/// A timeout given in seconds, in milliseconds (see `seconds_reading`).
fn read_seconds(v: Option<&JsonValue>) -> (r: Option<u64>)
    ensures
        r == seconds_reading(
            match v {
                Some(x) => Some(*x),
                None => None,
            },
        ),
{
    match v {
        Some(JsonValue::Number(JsonNumber::PosInt(x))) => Some(x.wrapping_mul(1000)),
        Some(JsonValue::Number(JsonNumber::NegInt(_))) => Some(0),
        Some(JsonValue::Number(JsonNumber::Float(f))) => Some(f.thousandfold),
        _ => None,
    }
}

/// A timeout given in milliseconds (see `millis_reading`).
fn read_millis(v: Option<&JsonValue>) -> (r: Option<u64>)
    ensures
        r == millis_reading(
            match v {
                Some(x) => Some(*x),
                None => None,
            },
        ),
{
    match v {
        Some(JsonValue::Number(JsonNumber::PosInt(x))) => Some(*x),
        Some(JsonValue::Number(JsonNumber::NegInt(_))) => Some(0),
        Some(JsonValue::Number(JsonNumber::Float(f))) => Some(f.truncated),
        _ => None,
    }
}

/// Converts a connection definition into an Antigravity server.
///
/// The definition may be wrapped in a `server` member. `command` is required;
/// `args` keeps its string elements and `env` its string-valued members; the
/// timeout is the larger of the startup timeout (`startup_timeout_sec`, else
/// `startup_timeout_ms`, else 10 s) and the tool timeout (`tool_timeout_sec`,
/// else `tool_timeout_ms`, else 60 s).
pub fn value_to_antigravity_server(id: &str, spec: &JsonValue) -> (res: Result<
    AntigravityMcpServer,
    McpError,
>)
    ensures
        server_fields(*spec) is None ==> (res matches Err(McpError::NotAnObject(i)) && i@ == id@),
        server_fields(*spec) is Some && !converts(*spec) ==> (res matches Err(
            McpError::MissingCommand(i),
        ) && i@ == id@),
        converts(*spec) ==> (res matches Ok(s) && is_conversion_of(s, *spec)),
{
    let outer = match spec {
        JsonValue::Object(fields) => fields,
        _ => {
            return Err(McpError::NotAnObject(id.to_owned()));
        },
    };
    let fields = match get_field(outer, "server") {
        Some(JsonValue::Object(inner)) => inner,
        _ => outer,
    };
    let command = match get_field(fields, "command") {
        Some(JsonValue::Str(c)) => c.clone(),
        _ => {
            return Err(McpError::MissingCommand(id.to_owned()));
        },
    };
    let args = match get_field(fields, "args") {
        Some(JsonValue::Array(items)) => string_items_of(items),
        _ => Vec::new(),
    };
    let env = match get_field(fields, "env") {
        Some(JsonValue::Object(o)) => string_table(o),
        _ => Table::new(),
    };
    let startup_ms = match read_seconds(get_field(fields, "startup_timeout_sec")) {
        Some(t) => t,
        None => match read_millis(get_field(fields, "startup_timeout_ms")) {
            Some(t) => t,
            None => DEFAULT_STARTUP_MS,
        },
    };
    let tool_ms = match read_seconds(get_field(fields, "tool_timeout_sec")) {
        Some(t) => t,
        None => match read_millis(get_field(fields, "tool_timeout_ms")) {
            Some(t) => t,
            None => DEFAULT_TOOL_MS,
        },
    };
    let timeout = if startup_ms >= tool_ms {
        startup_ms
    } else {
        tool_ms
    };
    Ok(AntigravityMcpServer { command, args, env, timeout: Some(timeout) })
}


/// The timeout written for a server: its own, or the default startup timeout.
pub open spec fn written_timeout(s: AntigravityMcpServer) -> u64 {
    match s.timeout {
        Some(t) => t,
        None => DEFAULT_STARTUP_MS,
    }
}

/// `v` is the unified connection definition of `s`: an object with, in
/// this order, `args` (the arguments as strings), `command`, `env` (the
/// environment as string members), `startup_timeout_ms` and `type: "stdio"`.
pub open spec fn is_unified_form(v: JsonValue, s: AntigravityMcpServer) -> bool {
    match v {
        JsonValue::Object(f) => {
            &&& f@.len() == 5
            &&& f@[0].0@ == "args"@
            &&& f@[0].1 matches JsonValue::Array(a) && a@ == s.args@.map_values(
                |x: String| JsonValue::Str(x),
            )
            &&& f@[1].0@ == "command"@
            &&& f@[1].1 matches JsonValue::Str(c) && c@ == s.command@
            &&& f@[2].0@ == "env"@
            &&& f@[2].1 matches JsonValue::Object(e) && e@ == s.env.entries().map_values(
                |p: (String, String)| (p.0, JsonValue::Str(p.1)),
            )
            &&& f@[3].0@ == "startup_timeout_ms"@
            &&& f@[3].1 == JsonValue::Number(JsonNumber::PosInt(written_timeout(s)))
            &&& f@[4].0@ == "type"@
            &&& f@[4].1 matches JsonValue::Str(t) && t@ == "stdio"@
        },
        _ => false,
    }
}

/// Converts an Antigravity server into the unified connection definition.
pub fn antigravity_server_to_value(server: &AntigravityMcpServer) -> (v: JsonValue)
    ensures
        is_unified_form(v, *server),
{
    let mut args: Vec<JsonValue> = Vec::new();
    let n = server.args.len();
    let mut i: usize = 0;
    while i < n
        invariant
            n == server.args@.len(),
            i <= n,
            args@ == server.args@.take(i as int).map_values(|x: String| JsonValue::Str(x)),
        decreases n - i,
    {
        args.push(JsonValue::Str(server.args[i].clone()));
        i = i + 1;
        assert(args@ =~= server.args@.take(i as int).map_values(|x: String| JsonValue::Str(x)));
    }
    assert(server.args@.take(n as int) =~= server.args@);
    let mut env: Vec<(String, JsonValue)> = Vec::new();
    let m = server.env.len();
    let mut j: usize = 0;
    while j < m
        invariant
            m == server.env.entries().len(),
            j <= m,
            env@ == server.env.entries().take(j as int).map_values(
                |p: (String, String)| (p.0, JsonValue::Str(p.1)),
            ),
        decreases m - j,
    {
        let k = server.env.key_at(j).clone();
        let val = server.env.value_at(j).clone();
        env.push((k, JsonValue::Str(val)));
        j = j + 1;
        assert(env@ =~= server.env.entries().take(j as int).map_values(
            |p: (String, String)| (p.0, JsonValue::Str(p.1)),
        ));
    }
    assert(server.env.entries().take(m as int) =~= server.env.entries());
    let timeout = match server.timeout {
        Some(t) => t,
        None => DEFAULT_STARTUP_MS,
    };
    let mut fields: Vec<(String, JsonValue)> = Vec::new();
    fields.push((String::from_str("args"), JsonValue::Array(args)));
    fields.push((String::from_str("command"), JsonValue::Str(server.command.clone())));
    fields.push((String::from_str("env"), JsonValue::Object(env)));
    fields.push(
        (String::from_str("startup_timeout_ms"), JsonValue::Number(JsonNumber::PosInt(timeout))),
    );
    fields.push((String::from_str("type"), JsonValue::Str(String::from_str("stdio"))));
    JsonValue::Object(fields)
}

proof fn lemma_string_items_all(xs: Seq<String>)
    ensures
        string_items(xs.map_values(|x: String| JsonValue::Str(x))) == xs,
    decreases xs.len(),
{
    let m = xs.map_values(|x: String| JsonValue::Str(x));
    if xs.len() > 0 {
        lemma_string_items_all(xs.drop_last());
        assert(m.drop_last() =~= xs.drop_last().map_values(|x: String| JsonValue::Str(x)));
        assert(string_items(m) =~= xs);
    } else {
        assert(string_items(m) =~= xs);
    }
}

proof fn lemma_string_entries_all(ps: Seq<(String, String)>)
    ensures
        string_entries(ps.map_values(|p: (String, String)| (p.0, JsonValue::Str(p.1)))) == ps,
    decreases ps.len(),
{
    let m = ps.map_values(|p: (String, String)| (p.0, JsonValue::Str(p.1)));
    if ps.len() > 0 {
        lemma_string_entries_all(ps.drop_last());
        assert(m.drop_last() =~= ps.drop_last().map_values(
            |p: (String, String)| (p.0, JsonValue::Str(p.1)),
        ));
        assert(string_entries(m) =~= ps);
    } else {
        assert(string_entries(m) =~= ps);
    }
}

/// The member keys of a unified definition, and what the conversion looks
/// up in it, are distinct texts.
proof fn lemma_unified_keys()
    ensures
        "args"@ != "server"@,
        "command"@ != "server"@,
        "env"@ != "server"@,
        "startup_timeout_ms"@ != "server"@,
        "type"@ != "server"@,
        "args"@ != "command"@,
        "args"@ != "env"@,
        "command"@ != "env"@,
        "args"@ != "startup_timeout_sec"@,
        "command"@ != "startup_timeout_sec"@,
        "env"@ != "startup_timeout_sec"@,
        "startup_timeout_ms"@ != "startup_timeout_sec"@,
        "type"@ != "startup_timeout_sec"@,
        "args"@ != "startup_timeout_ms"@,
        "command"@ != "startup_timeout_ms"@,
        "env"@ != "startup_timeout_ms"@,
        "args"@ != "tool_timeout_sec"@,
        "command"@ != "tool_timeout_sec"@,
        "env"@ != "tool_timeout_sec"@,
        "startup_timeout_ms"@ != "tool_timeout_sec"@,
        "type"@ != "tool_timeout_sec"@,
        "args"@ != "tool_timeout_ms"@,
        "command"@ != "tool_timeout_ms"@,
        "env"@ != "tool_timeout_ms"@,
        "startup_timeout_ms"@ != "tool_timeout_ms"@,
        "type"@ != "tool_timeout_ms"@,
        "args"@ != "type"@,
        "command"@ != "type"@,
        "env"@ != "type"@,
        "startup_timeout_ms"@ != "type"@,
        "args"@ != "url"@,
        "command"@ != "url"@,
        "env"@ != "url"@,
        "startup_timeout_ms"@ != "url"@,
        "type"@ != "url"@,
        "stdio"@ != "http"@,
        "stdio"@ != "sse"@,
{
    reveal_strlit("args");
    reveal_strlit("command");
    reveal_strlit("env");
    reveal_strlit("server");
    reveal_strlit("startup_timeout_ms");
    reveal_strlit("startup_timeout_sec");
    reveal_strlit("tool_timeout_ms");
    reveal_strlit("tool_timeout_sec");
    reveal_strlit("type");
    reveal_strlit("url");
    reveal_strlit("stdio");
    reveal_strlit("http");
    reveal_strlit("sse");
    assert("args"@.len() != "server"@.len());
    assert("command"@[0] != "server"@[0]);
    assert("env"@.len() != "server"@.len());
    assert("startup_timeout_ms"@.len() != "server"@.len());
    assert("type"@.len() != "server"@.len());
    assert("args"@.len() != "command"@.len());
    assert("args"@.len() != "env"@.len());
    assert("command"@.len() != "env"@.len());
    assert("args"@.len() != "startup_timeout_sec"@.len());
    assert("command"@.len() != "startup_timeout_sec"@.len());
    assert("env"@.len() != "startup_timeout_sec"@.len());
    assert("startup_timeout_ms"@[16] != "startup_timeout_sec"@[16]);
    assert("type"@.len() != "startup_timeout_sec"@.len());
    assert("args"@.len() != "startup_timeout_ms"@.len());
    assert("command"@.len() != "startup_timeout_ms"@.len());
    assert("env"@.len() != "startup_timeout_ms"@.len());
    assert("args"@.len() != "tool_timeout_sec"@.len());
    assert("command"@.len() != "tool_timeout_sec"@.len());
    assert("env"@.len() != "tool_timeout_sec"@.len());
    assert("startup_timeout_ms"@.len() != "tool_timeout_sec"@.len());
    assert("type"@.len() != "tool_timeout_sec"@.len());
    assert("args"@.len() != "tool_timeout_ms"@.len());
    assert("command"@.len() != "tool_timeout_ms"@.len());
    assert("env"@.len() != "tool_timeout_ms"@.len());
    assert("startup_timeout_ms"@.len() != "tool_timeout_ms"@.len());
    assert("type"@.len() != "tool_timeout_ms"@.len());
    assert("args"@[0] != "type"@[0]);
    assert("command"@.len() != "type"@.len());
    assert("env"@.len() != "type"@.len());
    assert("startup_timeout_ms"@.len() != "type"@.len());
    assert("args"@.len() != "url"@.len());
    assert("command"@.len() != "url"@.len());
    assert("env"@[0] != "url"@[0]);
    assert("startup_timeout_ms"@.len() != "url"@.len());
    assert("type"@.len() != "url"@.len());
    assert("stdio"@.len() != "http"@.len());
    assert("stdio"@[1] != "sse"@[1]);
}

/// Converting a server to its unified definition and back keeps its
/// command, arguments and environment; the timeout comes back as the larger
/// of the written timeout and the default tool timeout.
pub proof fn lemma_unified_form_round_trip(v: JsonValue, s: AntigravityMcpServer)
    requires
        is_unified_form(v, s),
    ensures
        converts(v),
        server_fields(v) matches Some(f) && {
            &&& command_of(f) == Some(s.command@)
            &&& args_of(f) == s.args@
            &&& env_of(f) == s.env@
            &&& timeout_of(f) == if written_timeout(s) >= DEFAULT_TOOL_MS {
                written_timeout(s)
            } else {
                DEFAULT_TOOL_MS
            }
        },
        spec_server_spec_valid(v) == (trim(s.command@).len() > 0),
{
    lemma_unified_keys();
    let f = match v {
        JsonValue::Object(f) => f@,
        _ => arbitrary(),
    };
    crate::json::lemma_obj_get(f, "server"@, 5);
    crate::json::lemma_obj_get(f, "args"@, 0);
    crate::json::lemma_obj_get(f, "command"@, 1);
    crate::json::lemma_obj_get(f, "env"@, 2);
    crate::json::lemma_obj_get(f, "startup_timeout_sec"@, 5);
    crate::json::lemma_obj_get(f, "startup_timeout_ms"@, 3);
    crate::json::lemma_obj_get(f, "tool_timeout_sec"@, 5);
    crate::json::lemma_obj_get(f, "tool_timeout_ms"@, 5);
    crate::json::lemma_obj_get(f, "type"@, 4);
    crate::json::lemma_obj_get(f, "url"@, 5);
    lemma_string_items_all(s.args@);
    lemma_string_entries_all(s.env.entries());
    s.env.lemma_view();
    assert(server_fields(v) == Some(f));
}


/// An entry of the Gemini section is enabled: its `enabled` member is `true`.
pub open spec fn enabled_flag(entry: JsonValue) -> bool {
    crate::json::value_get(entry, "enabled"@) == Some(JsonValue::Bool(true))
}

/// The definition that the entry contributes to Antigravity: that of an
/// enabled entry whose `server` member is an object that converts.
pub open spec fn synced_definition(entry: JsonValue) -> Option<JsonValue> {
    if enabled_flag(entry) {
        match spec_extract_server(entry) {
            Some(s) => if converts(s) {
                Some(s)
            } else {
                None
            },
            None => None,
        }
    } else {
        None
    }
}

/// `r` holds exactly the definitions that the Gemini entries `g` contribute,
/// each converted.
pub open spec fn is_sync_result(
    g: Map<Seq<char>, JsonValue>,
    r: Map<Seq<char>, AntigravityMcpServer>,
) -> bool {
    &&& forall|k: Seq<char>| #[trigger]
        r.contains_key(k) <==> (g.contains_key(k) && synced_definition(g[k]) is Some)
    &&& forall|k: Seq<char>| #[trigger]
        r.contains_key(k) ==> is_conversion_of(r[k], synced_definition(g[k])->0)
}

/// Replaces the Antigravity servers with the enabled servers of the Gemini
/// section of `config`, converted; entries that are disabled or do not
/// convert are left out.
pub fn sync_enabled_to_antigravity(config: &MultiAppConfig, current: &mut AntigravityMcpConfig)
    ensures
        forall|k: Seq<char>|
            #![trigger final(current).mcp_servers@.contains_key(k)]
            final(current).mcp_servers@.contains_key(k) <==> (
            config.mcp.gemini.servers@.contains_key(k) && synced_definition(
                config.mcp.gemini.servers@[k],
            ) is Some),
        forall|k: Seq<char>|
            #![trigger final(current).mcp_servers@[k]]
            final(current).mcp_servers@.contains_key(k) ==> is_conversion_of(
                final(current).mcp_servers@[k],
                synced_definition(config.mcp.gemini.servers@[k])->0,
            ),
        is_sync_result(config.mcp.gemini.servers@, final(current).mcp_servers@),
{
    current.mcp_servers.clear();
    let gemini = &config.mcp.gemini.servers;
    let n = gemini.len();
    let ghost keys = gemini.keys();
    let ghost g = gemini@;
    let mut i: usize = 0;
    while i < n
        invariant
            n == keys.len(),
            keys == gemini.keys(),
            g == gemini@,
            g.dom() == keys.to_set(),
            i <= n,
            forall|k: Seq<char>|
                #![trigger current.mcp_servers@.contains_key(k)]
                current.mcp_servers@.contains_key(k) <==> (keys.take(i as int).contains(k)
                    && g.contains_key(k) && synced_definition(g[k]) is Some),
            forall|k: Seq<char>|
                #![trigger current.mcp_servers@[k]]
                current.mcp_servers@.contains_key(k) ==> is_conversion_of(
                    current.mcp_servers@[k],
                    synced_definition(g[k])->0,
                ),
        decreases n - i,
    {
        let id = gemini.key_at(i);
        let entry = gemini.value_at(i);
        proof {
            crate::table::lemma_take_one_more(keys, i as int);
        }
        let enabled = match entry.get("enabled") {
            Some(JsonValue::Bool(b)) => *b,
            _ => false,
        };
        if enabled {
            match extract_server_spec(entry) {
                Some(spec) => {
                    match value_to_antigravity_server(id.as_str(), spec) {
                        Ok(server) => {
                            current.mcp_servers.insert(id.clone(), server);
                        },
                        Err(_) => {},
                    }
                },
                None => {},
            }
        }
        i = i + 1;
    }
    proof {
        assert(keys.take(n as int) =~= keys);
        assert forall|k: Seq<char>| g.contains_key(k) implies keys.contains(k) by {
            assert(keys.to_set().contains(k));
        }
    }
}

/// Every enabled Gemini entry whose `server` member is an object with a
/// string `command` (and no nested `server` object) is synced, with that
/// command, whatever other members (`type`, `args`, ...) it has.
pub proof fn law_sync_keeps_enabled_definitions(
    g: Map<Seq<char>, JsonValue>,
    r: Map<Seq<char>, AntigravityMcpServer>,
    k: Seq<char>,
    def: JsonValue,
)
    requires
        is_sync_result(g, r),
        g.contains_key(k),
        crate::json::value_get(g[k], "enabled"@) == Some(JsonValue::Bool(true)),
        crate::json::value_get(g[k], "server"@) == Some(def),
        def matches JsonValue::Object(f) && !(obj_get(f@, "server"@) matches Some(
            JsonValue::Object(_),
        )) && obj_get(f@, "command"@) matches Some(JsonValue::Str(_)),
    ensures
        r.contains_key(k),
        def matches JsonValue::Object(f) && obj_get(f@, "command"@) matches Some(JsonValue::Str(c))
            && r[k].command@ == c@,
{
    assert(spec_extract_server(g[k]) == Some(def));
    assert(converts(def));
    assert(synced_definition(g[k]) == Some(def));
    assert(r.contains_key(k));
    assert(is_conversion_of(r[k], def));
}

/// A tool timeout given as a whole number of seconds `n` counts as `n * 1000`
/// milliseconds: the server's timeout is at least that, and exactly the
/// larger of it and the 10 s startup default when no startup timeout is
/// given.
pub proof fn law_tool_timeout_in_seconds(s: AntigravityMcpServer, spec: JsonValue, n: u64)
    requires
        is_conversion_of(s, spec),
        spec matches JsonValue::Object(fields) && !(obj_get(fields@, "server"@) matches Some(
            JsonValue::Object(_),
        )) && obj_get(fields@, "tool_timeout_sec"@) == Some(
            JsonValue::Number(JsonNumber::PosInt(n)),
        ),
        n * 1000 <= u64::MAX,
    ensures
        s.timeout matches Some(t) && t >= n * 1000,
        (spec matches JsonValue::Object(fields) && obj_get(fields@, "startup_timeout_sec"@) is None
            && obj_get(fields@, "startup_timeout_ms"@) is None) ==> s.timeout == Some(
            if n * 1000 >= 10000 {
                (n * 1000) as u64
            } else {
                10000u64
            },
        ),
{
    assert((n as nat * 1000) % 0x1_0000_0000_0000_0000 == n * 1000);
}

/// `spec` is an object with members `fields` and no `server` object member
/// (so the conversion reads `fields` themselves).
pub open spec fn unwrapped_definition(spec: JsonValue, fields: Seq<(String, JsonValue)>) -> bool {
    &&& spec matches JsonValue::Object(v) && v@ == fields
    &&& !(obj_get(fields, "server"@) matches Some(JsonValue::Object(_)))
}

proof fn lemma_string_items_of_strings(items: Seq<JsonValue>)
    requires
        forall|i: int| 0 <= i < items.len() ==> #[trigger] items[i] is Str,
    ensures
        string_items(items).len() == items.len(),
        forall|i: int| 0 <= i < items.len() ==> items[i] == JsonValue::Str(#[trigger] string_items(items)[i]),
    decreases items.len(),
{
    if items.len() > 0 {
        let init = items.drop_last();
        assert forall|i: int| 0 <= i < init.len() implies #[trigger] init[i] is Str by {
            assert(init[i] == items[i]);
        }
        lemma_string_items_of_strings(init);
        assert forall|i: int| 0 <= i < items.len() implies items[i] == JsonValue::Str(
            #[trigger] string_items(items)[i],
        ) by {
            if i < init.len() {
                assert(items[i] == init[i]);
                assert(string_items(items)[i] == string_items(init)[i]);
            }
        }
    }
}

/// When `args` is an array of strings, the server's arguments are exactly
/// those strings, in order.
pub proof fn law_string_args_kept(
    s: AntigravityMcpServer,
    spec: JsonValue,
    fields: Seq<(String, JsonValue)>,
    items: Seq<JsonValue>,
)
    requires
        is_conversion_of(s, spec),
        unwrapped_definition(spec, fields),
        obj_get(fields, "args"@) matches Some(JsonValue::Array(a)) && a@ == items,
        forall|i: int| 0 <= i < items.len() ==> #[trigger] items[i] is Str,
    ensures
        s.args@.len() == items.len(),
        forall|i: int| 0 <= i < items.len() ==> items[i] == JsonValue::Str(#[trigger] s.args@[i]),
{
    lemma_string_items_of_strings(items);
}

proof fn lemma_string_entries_of_strings(fields: Seq<(String, JsonValue)>)
    requires
        forall|i: int| 0 <= i < fields.len() ==> #[trigger] fields[i].1 is Str,
    ensures
        string_entries(fields).len() == fields.len(),
        forall|i: int|
            0 <= i < fields.len() ==> (#[trigger] string_entries(fields)[i]).0 == fields[i].0
                && fields[i].1 == JsonValue::Str(string_entries(fields)[i].1),
    decreases fields.len(),
{
    if fields.len() > 0 {
        let init = fields.drop_last();
        assert forall|i: int| 0 <= i < init.len() implies #[trigger] init[i].1 is Str by {
            assert(init[i] == fields[i]);
        }
        lemma_string_entries_of_strings(init);
        assert forall|i: int| 0 <= i < fields.len() implies (#[trigger] string_entries(
            fields,
        )[i]).0 == fields[i].0 && fields[i].1 == JsonValue::Str(string_entries(fields)[i].1) by {
            if i < init.len() {
                assert(fields[i] == init[i]);
                assert(string_entries(fields)[i] == string_entries(init)[i]);
            }
        }
    }
}

/// When `env` is an object of string members with distinct keys, the
/// server's environment maps each key to its string.
pub proof fn law_string_env_kept(
    s: AntigravityMcpServer,
    spec: JsonValue,
    fields: Seq<(String, JsonValue)>,
    members: Seq<(String, JsonValue)>,
    i: int,
)
    requires
        is_conversion_of(s, spec),
        unwrapped_definition(spec, fields),
        obj_get(fields, "env"@) matches Some(JsonValue::Object(o)) && o@ == members,
        forall|j: int| 0 <= j < members.len() ==> #[trigger] members[j].1 is Str,
        crate::table::keys_distinct(members),
        0 <= i < members.len(),
    ensures
        s.env@.contains_key(members[i].0@),
        members[i].1 == JsonValue::Str(s.env@[members[i].0@]),
{
    lemma_string_entries_of_strings(members);
    let e = string_entries(members);
    assert(crate::table::keys_distinct(e)) by {
        assert forall|a: int, b: int| 0 <= a < b < e.len() implies e[a].0@ != e[b].0@ by {
            assert(e[a].0 == members[a].0);
            assert(e[b].0 == members[b].0);
        }
    }
    assert(e[i].0 == members[i].0);
    crate::table::lemma_map_of_value(e, i);
}

/// A startup timeout given as a whole number of seconds `n` counts as
/// `n * 1000` milliseconds: the server's timeout is at least that, and
/// exactly the larger of it and the 60 s tool default when no tool timeout
/// is given.
pub proof fn law_startup_timeout_in_seconds(s: AntigravityMcpServer, spec: JsonValue, n: u64)
    requires
        is_conversion_of(s, spec),
        spec matches JsonValue::Object(fields) && !(obj_get(fields@, "server"@) matches Some(
            JsonValue::Object(_),
        )) && obj_get(fields@, "startup_timeout_sec"@) == Some(
            JsonValue::Number(JsonNumber::PosInt(n)),
        ),
        n * 1000 <= u64::MAX,
    ensures
        s.timeout matches Some(t) && t >= n * 1000,
        (spec matches JsonValue::Object(fields) && obj_get(fields@, "tool_timeout_sec"@) is None
            && obj_get(fields@, "tool_timeout_ms"@) is None) ==> s.timeout == Some(
            if n * 1000 >= 60000 {
                (n * 1000) as u64
            } else {
                60000u64
            },
        ),
{
    assert((n as nat * 1000) % 0x1_0000_0000_0000_0000 == n * 1000);
}

/// Adds or replaces the Antigravity server `id` with the conversion of
/// `server_spec`; when the definition does not convert, nothing changes and
/// the error says why.
pub fn sync_single_server_to_antigravity(
    _config: &MultiAppConfig,
    current: &mut AntigravityMcpConfig,
    id: &str,
    server_spec: &JsonValue,
) -> (r: Result<(), McpError>)
    ensures
        server_fields(*server_spec) is None ==> (r matches Err(McpError::NotAnObject(i)) && i@
            == id@),
        server_fields(*server_spec) is Some && !converts(*server_spec) ==> (r matches Err(
            McpError::MissingCommand(i),
        ) && i@ == id@),
        converts(*server_spec) ==> r is Ok,
        r is Err ==> final(current).mcp_servers@ == old(current).mcp_servers@,
        r is Ok ==> {
            &&& converts(*server_spec)
            &&& final(current).mcp_servers@.dom() == old(current).mcp_servers@.dom().insert(id@)
            &&& forall|k: Seq<char>|
                #![trigger final(current).mcp_servers@[k]]
                k != id@ && old(current).mcp_servers@.contains_key(k)
                    ==> final(current).mcp_servers@[k] == old(current).mcp_servers@[k]
            &&& is_conversion_of(final(current).mcp_servers@[id@], *server_spec)
        },
{
    let server = value_to_antigravity_server(id, server_spec)?;
    current.mcp_servers.insert(id.to_owned(), server);
    Ok(())
}

/// Removes the Antigravity server `id`; the result says whether there was
/// one (and so whether the file is to be written back).
pub fn remove_server_from_antigravity(current: &mut AntigravityMcpConfig, id: &str) -> (removed:
    bool)
    ensures
        final(current).mcp_servers@ == old(current).mcp_servers@.remove(id@),
        removed == old(current).mcp_servers@.contains_key(id@),
{
    current.mcp_servers.remove(id).is_some()
}


/// The unified servers of `c`; none when it has no server table yet.
pub open spec fn servers_view(c: MultiAppConfig) -> Map<Seq<char>, McpServer> {
    match c.mcp.servers {
        Some(t) => t@,
        None => Map::empty(),
    }
}

/// An Antigravity server passes validation once in unified form: its
/// command is not blank.
pub open spec fn importable(s: AntigravityMcpServer) -> bool {
    trim(s.command@).len() > 0
}

/// `m` with Antigravity enabled and nothing else changed.
pub open spec fn with_antigravity(m: McpServer) -> McpServer {
    McpServer { apps: McpApps { antigravity: true, ..m.apps }, ..m }
}

/// `m` is the unified server imported for the Antigravity server `s` with id
/// `k`: named after its id, enabled for Antigravity only, with no metadata.
pub open spec fn is_fresh_import(m: McpServer, k: Seq<char>, s: AntigravityMcpServer) -> bool {
    &&& m.id@ == k
    &&& m.name@ == k
    &&& is_unified_form(m.server, s)
    &&& m.apps == McpApps {
        claude: false,
        codex: false,
        gemini: false,
        opencode: false,
        hermes: false,
        antigravity: true,
    }
    &&& m.description is None
    &&& m.homepage is None
    &&& m.docs is None
    &&& m.tags@.len() == 0
}

/// `n` is the unified server table after importing the Antigravity servers
/// `l` into `s`: every importable server of `l` is enabled for Antigravity,
/// added when new; every other entry stays as it was.
pub open spec fn import_result(
    s: Map<Seq<char>, McpServer>,
    l: Map<Seq<char>, AntigravityMcpServer>,
    n: Map<Seq<char>, McpServer>,
) -> bool {
    &&& forall|k: Seq<char>| #[trigger]
        n.contains_key(k) <==> (s.contains_key(k) || (l.contains_key(k) && importable(l[k])))
    &&& forall|k: Seq<char>| #[trigger]
        n.contains_key(k) ==> if l.contains_key(k) && importable(l[k]) {
            if s.contains_key(k) {
                n[k] == with_antigravity(s[k])
            } else {
                is_fresh_import(n[k], k, l[k])
            }
        } else {
            n[k] == s[k]
        }
}

/// Importing `l` changes the entry `k` of `s`.
pub open spec fn changes_entry(
    s: Map<Seq<char>, McpServer>,
    l: Map<Seq<char>, AntigravityMcpServer>,
    k: Seq<char>,
) -> bool {
    l.contains_key(k) && importable(l[k]) && !(s.contains_key(k) && s[k].apps.antigravity)
}

/// How many entries importing `l` into `s` adds or enables.
pub open spec fn import_count(
    s: Map<Seq<char>, McpServer>,
    l: Map<Seq<char>, AntigravityMcpServer>,
) -> nat {
    l.dom().filter(|k: Seq<char>| changes_entry(s, l, k)).len()
}

proof fn lemma_count_step<A>(ks: Seq<A>, i: int, p: spec_fn(A) -> bool)
    requires
        ks.no_duplicates(),
        0 <= i < ks.len(),
    ensures
        ks.take(i + 1).to_set().filter(p).len() == ks.take(i).to_set().filter(p).len() + if p(
            ks[i],
        ) {
            1int
        } else {
            0int
        },
        ks.take(i + 1).to_set().filter(p).finite(),
{
    let a = ks.take(i).to_set();
    crate::table::lemma_take_one_more(ks, i);
    assert(ks.take(i + 1).to_set() =~= a.insert(ks[i]));
    assert(!a.contains(ks[i])) by {
        if a.contains(ks[i]) {
            let j = choose|j: int| 0 <= j < i && #[trigger] ks.take(i)[j] == ks[i];
            assert(ks[j] == ks[i]);
        }
    }
    vstd::seq_lib::seq_to_set_is_finite(ks.take(i));
    vstd::set_lib::lemma_set_subset_finite(a, a.filter(p));
    if p(ks[i]) {
        assert(a.insert(ks[i]).filter(p) =~= a.filter(p).insert(ks[i]));
    } else {
        assert(a.insert(ks[i]).filter(p) =~= a.filter(p));
    }
}

/// Imports the Antigravity servers `live` into the unified configuration:
/// each server whose unified definition passes validation is enabled for
/// Antigravity, and added (named after its id) when the configuration does
/// not have it yet. Returns how many entries were added or enabled.
pub fn import_from_antigravity(config: &mut MultiAppConfig, live: &AntigravityMcpConfig) -> (r:
    usize)
    ensures
        live.mcp_servers@.len() == 0 ==> *final(config) == *old(config) && r == 0,
        live.mcp_servers@.len() > 0 ==> {
            &&& final(config).mcp.servers is Some
            &&& final(config).mcp.gemini == old(config).mcp.gemini
            &&& import_result(
                servers_view(*old(config)),
                live.mcp_servers@,
                servers_view(*final(config)),
            )
            &&& r == import_count(servers_view(*old(config)), live.mcp_servers@)
        },
{
    if live.mcp_servers.is_empty() {
        return 0;
    }
    let ghost s = servers_view(*config);
    let ghost l = live.mcp_servers@;
    let ghost p = |k: Seq<char>| changes_entry(s, l, k);
    let mut servers = match config.mcp.servers.take() {
        Some(t) => t,
        None => Table::new(),
    };
    assert(servers@ == s);
    let n = live.mcp_servers.len();
    let ghost keys = live.mcp_servers.keys();
    let mut changed: usize = 0;
    let mut i: usize = 0;
    assert(keys.take(0).to_set().filter(p) =~= Set::empty());
    while i < n
        invariant
            n == keys.len(),
            keys == live.mcp_servers.keys(),
            keys.no_duplicates(),
            l == live.mcp_servers@,
            l.dom() == keys.to_set(),
            i <= n,
            changed <= i,
            changed == keys.take(i as int).to_set().filter(p).len(),
            p == (|k: Seq<char>| changes_entry(s, l, k)),
            forall|k: Seq<char>| #[trigger]
                servers@.contains_key(k) <==> (s.contains_key(k) || (keys.take(i as int).contains(
                    k,
                ) && l.contains_key(k) && importable(l[k]))),
            forall|k: Seq<char>| #[trigger]
                servers@.contains_key(k) ==> if keys.take(i as int).contains(k) && l.contains_key(k)
                    && importable(l[k]) {
                    if s.contains_key(k) {
                        servers@[k] == with_antigravity(s[k])
                    } else {
                        is_fresh_import(servers@[k], k, l[k])
                    }
                } else {
                    servers@[k] == s[k]
                },
        decreases n - i,
    {
        let id = live.mcp_servers.key_at(i);
        let data = live.mcp_servers.value_at(i);
        let ghost k_i = keys[i as int];
        proof {
            crate::table::lemma_take_one_more(keys, i as int);
            lemma_count_step(keys, i as int, p);
            assert(!keys.take(i as int).contains(k_i)) by {
                if keys.take(i as int).contains(k_i) {
                    let j = choose|j: int| 0 <= j < i && #[trigger] keys.take(i as int)[j] == k_i;
                    assert(keys[j] == k_i);
                }
            }
        }
        let spec = antigravity_server_to_value(data);
        proof {
            lemma_unified_form_round_trip(spec, *data);
        }
        if validate_server_spec(&spec) {
            match servers.remove(id.as_str()) {
                Some(existing) => {
                    let mut updated = existing;
                    if !updated.apps.antigravity {
                        updated.apps.antigravity = true;
                        changed = changed + 1;
                    }
                    assert(updated == with_antigravity(s[k_i]));
                    servers.insert(id.clone(), updated);
                },
                None => {
                    let imported = McpServer {
                        id: id.clone(),
                        name: id.clone(),
                        server: spec,
                        apps: McpApps {
                            claude: false,
                            codex: false,
                            gemini: false,
                            opencode: false,
                            hermes: false,
                            antigravity: true,
                        },
                        description: None,
                        homepage: None,
                        docs: None,
                        tags: Vec::new(),
                    };
                    servers.insert(id.clone(), imported);
                    changed = changed + 1;
                },
            }
        }
        i = i + 1;
    }
    proof {
        assert(keys.take(n as int) =~= keys);
        assert forall|k: Seq<char>| l.contains_key(k) implies keys.contains(k) by {
            assert(keys.to_set().contains(k));
        }
        assert(keys.to_set() == l.dom());
    }
    config.mcp.servers = Some(servers);
    changed
}

/// Every live server whose command is not blank ends up in the unified
/// table, enabled for Antigravity, whatever its arguments or environment; a
/// new one carries its unified definition; and when it was missing or not
/// yet enabled, the import counts at least one change.
pub proof fn law_import_enables_runnable_servers(
    s: Map<Seq<char>, McpServer>,
    l: Map<Seq<char>, AntigravityMcpServer>,
    n: Map<Seq<char>, McpServer>,
    k: Seq<char>,
)
    requires
        import_result(s, l, n),
        l.dom().finite(),
        l.contains_key(k),
        trim(l[k].command@).len() > 0,
    ensures
        n.contains_key(k),
        n[k].apps.antigravity,
        !s.contains_key(k) ==> n[k].id@ == k && is_unified_form(n[k].server, l[k]),
        s.contains_key(k) ==> n[k] == with_antigravity(s[k]),
        !(s.contains_key(k) && s[k].apps.antigravity) ==> import_count(s, l) >= 1,
{
    assert(n.contains_key(k));
    if !(s.contains_key(k) && s[k].apps.antigravity) {
        let changed = l.dom().filter(|q: Seq<char>| changes_entry(s, l, q));
        assert(changed.contains(k));
        vstd::set_lib::lemma_set_subset_finite(l.dom(), changed);
        if changed.len() == 0 {
            changed.lemma_len0_is_empty();
        }
    }
}

/// Importing the same Antigravity servers a second time changes nothing and
/// counts nothing.
pub proof fn lemma_import_idempotent(
    s: Map<Seq<char>, McpServer>,
    l: Map<Seq<char>, AntigravityMcpServer>,
    n: Map<Seq<char>, McpServer>,
)
    requires
        import_result(s, l, n),
    ensures
        import_result(n, l, n),
        import_count(n, l) == 0,
{
    assert forall|k: Seq<char>| #[trigger] n.contains_key(k) implies (if l.contains_key(k)
        && importable(l[k]) {
        if n.contains_key(k) {
            n[k] == with_antigravity(n[k])
        } else {
            is_fresh_import(n[k], k, l[k])
        }
    } else {
        n[k] == n[k]
    }) by {
        if l.contains_key(k) && importable(l[k]) {
            assert(n[k].apps.antigravity);
            assert(with_antigravity(n[k]).apps == n[k].apps);
        }
    }
    assert forall|k: Seq<char>| #[trigger] l.contains_key(k) && importable(l[k]) implies n.contains_key(k)
        && n[k].apps.antigravity by {
        assert(n.contains_key(k));
    }
    assert(l.dom().filter(|k: Seq<char>| changes_entry(n, l, k)) =~= Set::empty());
}

} // verus!
