use antigravity::antigravity_config::{AntigravityMcpConfig, AntigravityMcpServer};
use antigravity::app_config::{McpAppSection, McpApps, McpRoot, McpServer, MultiAppConfig};
use antigravity::json::{FloatNumber, JsonNumber, JsonValue};
use antigravity::mcp::{
    antigravity_server_to_value, import_from_antigravity, remove_server_from_antigravity,
    sync_enabled_to_antigravity, sync_single_server_to_antigravity, value_to_antigravity_server,
    McpError,
};
use antigravity::table::Table;
use antigravity::validation::{extract_server_spec, validate_server_spec};

fn s(x: &str) -> JsonValue {
    JsonValue::Str(x.to_string())
}

fn n(x: u64) -> JsonValue {
    JsonValue::Number(JsonNumber::PosInt(x))
}

fn obj(members: Vec<(&str, JsonValue)>) -> JsonValue {
    JsonValue::Object(members.into_iter().map(|(k, v)| (k.to_string(), v)).collect())
}

fn empty_config() -> MultiAppConfig {
    MultiAppConfig { mcp: McpRoot { servers: None, gemini: McpAppSection { servers: Table::new() } } }
}

fn server(command: &str, timeout: Option<u64>) -> AntigravityMcpServer {
    AntigravityMcpServer { command: command.to_string(), args: Vec::new(), env: Table::new(), timeout }
}

#[test]
fn converts_a_full_definition() {
    let spec = obj(vec![
        ("command", s("npx")),
        ("args", JsonValue::Array(vec![s("-y"), n(1), s("@modelcontextprotocol/server-time")])),
        ("env", obj(vec![("TOKEN", s("abc")), ("N", n(2))])),
        ("startup_timeout_sec", n(5)),
        ("tool_timeout_ms", n(120_000)),
    ]);
    let server = value_to_antigravity_server("time", &spec).unwrap();
    assert_eq!(server.command, "npx");
    assert_eq!(server.args, vec!["-y".to_string(), "@modelcontextprotocol/server-time".to_string()]);
    assert_eq!(server.env.len(), 1);
    assert_eq!(server.env.get("TOKEN").unwrap(), "abc");
    assert_eq!(server.timeout, Some(120_000));
}

#[test]
fn converts_a_wrapped_definition_with_defaults() {
    let spec = obj(vec![("server", obj(vec![("command", s("uvx"))])), ("command", s("ignored"))]);
    let server = value_to_antigravity_server("w", &spec).unwrap();
    assert_eq!(server.command, "uvx");
    assert!(server.args.is_empty());
    assert!(server.env.is_empty());
    assert_eq!(server.timeout, Some(60_000));
}

#[test]
fn non_object_server_member_is_ignored() {
    let spec = obj(vec![("server", s("x")), ("command", s("node"))]);
    assert_eq!(value_to_antigravity_server("w", &spec).unwrap().command, "node");
}

#[test]
fn startup_seconds_are_milliseconds() {
    let spec = obj(vec![("command", s("c")), ("startup_timeout_sec", n(90))]);
    assert_eq!(value_to_antigravity_server("id", &spec).unwrap().timeout, Some(90_000));
    let spec = obj(vec![("command", s("c")), ("startup_timeout_ms", n(70_000))]);
    assert_eq!(value_to_antigravity_server("id", &spec).unwrap().timeout, Some(70_000));
    let spec = obj(vec![
        ("command", s("c")),
        ("startup_timeout_sec", s("soon")),
        ("startup_timeout_ms", n(80_000)),
    ]);
    assert_eq!(value_to_antigravity_server("id", &spec).unwrap().timeout, Some(80_000));
}

#[test]
fn negative_and_fractional_timeouts() {
    let spec = obj(vec![
        ("command", s("c")),
        ("startup_timeout_sec", JsonValue::Number(JsonNumber::NegInt(-3))),
        ("tool_timeout_ms", JsonValue::Number(JsonNumber::NegInt(-1))),
    ]);
    assert_eq!(value_to_antigravity_server("id", &spec).unwrap().timeout, Some(0));
    let f = FloatNumber { text: "90.5".to_string(), truncated: 90, thousandfold: 90_500 };
    let spec = obj(vec![("command", s("c")), ("tool_timeout_sec", JsonValue::Number(JsonNumber::Float(f)))]);
    assert_eq!(value_to_antigravity_server("id", &spec).unwrap().timeout, Some(90_500));
}

#[test]
fn huge_second_counts_wrap() {
    let big = u64::MAX / 1000 + 1;
    let spec = obj(vec![("command", s("c")), ("startup_timeout_sec", n(big)), ("tool_timeout_ms", n(1))]);
    assert_eq!(value_to_antigravity_server("id", &spec).unwrap().timeout, Some(big.wrapping_mul(1000)));
}

#[test]
fn conversion_errors() {
    match value_to_antigravity_server("bad", &s("x")) {
        Err(e @ McpError::NotAnObject(_)) => assert_eq!(e.message(), "MCP 服务器 'bad' 不是对象"),
        other => panic!("unexpected {:?}", other),
    }
    match value_to_antigravity_server("nocmd", &obj(vec![("command", n(1))])) {
        Err(e @ McpError::MissingCommand(_)) => {
            assert_eq!(e.message(), "MCP 服务器 'nocmd' 缺少 command 字段")
        }
        other => panic!("unexpected {:?}", other),
    }
}

#[test]
fn unified_form_of_a_server() {
    let mut env = Table::new();
    env.insert("K".to_string(), "V".to_string());
    let srv = AntigravityMcpServer {
        command: "npx".to_string(),
        args: vec!["-y".to_string()],
        env,
        timeout: None,
    };
    let v = antigravity_server_to_value(&srv);
    match v.get("type") {
        Some(JsonValue::Str(t)) => assert_eq!(t, "stdio"),
        other => panic!("unexpected {:?}", other),
    }
    match v.get("startup_timeout_ms") {
        Some(JsonValue::Number(JsonNumber::PosInt(t))) => assert_eq!(*t, 10_000),
        other => panic!("unexpected {:?}", other),
    }
    match v.get("env") {
        Some(env) => match env.get("K") {
            Some(JsonValue::Str(x)) => assert_eq!(x, "V"),
            other => panic!("unexpected {:?}", other),
        },
        None => panic!("no env"),
    }
    assert!(validate_server_spec(&v));
}

#[test]
fn unified_form_round_trip() {
    let mut env = Table::new();
    env.insert("A".to_string(), "1".to_string());
    let srv = AntigravityMcpServer {
        command: "uvx".to_string(),
        args: vec!["tool".to_string(), "--flag".to_string()],
        env,
        timeout: Some(5_000),
    };
    let back = value_to_antigravity_server("x", &antigravity_server_to_value(&srv)).unwrap();
    assert_eq!(back.command, srv.command);
    assert_eq!(back.args, srv.args);
    assert_eq!(back.env.get("A").unwrap(), "1");
    assert_eq!(back.env.len(), 1);
    assert_eq!(back.timeout, Some(60_000));
    let srv2 = server("uvx", Some(90_000));
    let back2 = value_to_antigravity_server("x", &antigravity_server_to_value(&srv2)).unwrap();
    assert_eq!(back2.timeout, Some(90_000));
}

#[test]
fn validation_of_definitions() {
    assert!(validate_server_spec(&obj(vec![("command", s("npx"))])));
    assert!(validate_server_spec(&obj(vec![("type", s("stdio")), ("command", s("npx"))])));
    assert!(!validate_server_spec(&obj(vec![("type", s("stdio")), ("command", s("   "))])));
    assert!(!validate_server_spec(&obj(vec![("type", s("stdio"))])));
    assert!(validate_server_spec(&obj(vec![("type", s("http")), ("url", s("https://x"))])));
    assert!(validate_server_spec(&obj(vec![("type", s("sse")), ("url", s("https://x"))])));
    assert!(!validate_server_spec(&obj(vec![("type", s("sse")), ("command", s("npx"))])));
    assert!(!validate_server_spec(&obj(vec![("type", s("ws")), ("command", s("npx"))])));
    assert!(!validate_server_spec(&s("npx")));
}

#[test]
fn extract_server_member() {
    let entry = obj(vec![("enabled", JsonValue::Bool(true)), ("server", obj(vec![("command", s("a"))]))]);
    assert!(extract_server_spec(&entry).is_some());
    assert!(extract_server_spec(&obj(vec![("server", s("a"))])).is_none());
    assert!(extract_server_spec(&obj(vec![])).is_none());
    assert!(extract_server_spec(&s("a")).is_none());
}

#[test]
fn sync_enabled_keeps_only_enabled_convertible_servers() {
    let mut config = empty_config();
    let g = &mut config.mcp.gemini.servers;
    g.insert(
        "on".to_string(),
        obj(vec![("enabled", JsonValue::Bool(true)), ("server", obj(vec![("command", s("a"))]))]),
    );
    g.insert(
        "off".to_string(),
        obj(vec![("enabled", JsonValue::Bool(false)), ("server", obj(vec![("command", s("b"))]))]),
    );
    g.insert("implicit".to_string(), obj(vec![("server", obj(vec![("command", s("c"))]))]));
    g.insert(
        "broken".to_string(),
        obj(vec![("enabled", JsonValue::Bool(true)), ("server", obj(vec![("args", s("x"))]))]),
    );
    let mut current = AntigravityMcpConfig::default();
    current.mcp_servers.insert("stale".to_string(), server("old", None));
    sync_enabled_to_antigravity(&config, &mut current);
    assert_eq!(current.mcp_servers.len(), 1);
    let on = current.mcp_servers.get("on").unwrap();
    assert_eq!(on.command, "a");
    assert_eq!(on.timeout, Some(60_000));
    assert!(!current.mcp_servers.contains_key("stale"));
}

#[test]
fn sync_single_inserts_or_reports() {
    let config = empty_config();
    let mut current = AntigravityMcpConfig::default();
    assert!(sync_single_server_to_antigravity(&config, &mut current, "a", &obj(vec![("command", s("x"))])).is_ok());
    assert_eq!(current.mcp_servers.get("a").unwrap().command, "x");
    let r = sync_single_server_to_antigravity(&config, &mut current, "a", &obj(vec![]));
    assert!(matches!(r, Err(McpError::MissingCommand(_))));
    assert_eq!(current.mcp_servers.get("a").unwrap().command, "x");
}

#[test]
fn remove_reports_whether_present() {
    let mut current = AntigravityMcpConfig::default();
    current.mcp_servers.insert("a".to_string(), server("x", None));
    assert!(remove_server_from_antigravity(&mut current, "a"));
    assert!(!remove_server_from_antigravity(&mut current, "a"));
    assert!(current.mcp_servers.is_empty());
}

fn existing(id: &str, antigravity: bool) -> McpServer {
    McpServer {
        id: id.to_string(),
        name: format!("name of {}", id),
        server: obj(vec![("command", s("keep"))]),
        apps: McpApps { claude: true, codex: false, gemini: false, opencode: false, hermes: false, antigravity },
        description: Some("d".to_string()),
        homepage: None,
        docs: None,
        tags: vec!["t".to_string()],
    }
}

#[test]
fn import_from_empty_live_config_changes_nothing() {
    let mut config = empty_config();
    let live = AntigravityMcpConfig::default();
    assert_eq!(import_from_antigravity(&mut config, &live), 0);
    assert!(config.mcp.servers.is_none());
}

#[test]
fn import_adds_and_enables() {
    let mut config = empty_config();
    let mut servers = Table::new();
    servers.insert("old".to_string(), existing("old", false));
    servers.insert("done".to_string(), existing("done", true));
    servers.insert("other".to_string(), existing("other", false));
    config.mcp.servers = Some(servers);
    let mut live = AntigravityMcpConfig::default();
    live.mcp_servers.insert("old".to_string(), server("a", None));
    live.mcp_servers.insert("done".to_string(), server("b", None));
    live.mcp_servers.insert("new".to_string(), server("c", Some(1234)));
    live.mcp_servers.insert("blank".to_string(), server("  ", None));
    assert_eq!(import_from_antigravity(&mut config, &live), 2);
    let servers = config.mcp.servers.as_ref().unwrap();
    assert_eq!(servers.len(), 4);
    let old = servers.get("old").unwrap();
    assert!(old.apps.antigravity && old.apps.claude);
    assert_eq!(old.name, "name of old");
    assert!(!servers.get("other").unwrap().apps.antigravity);
    let new = servers.get("new").unwrap();
    assert_eq!(new.id, "new");
    assert_eq!(new.name, "new");
    assert!(new.apps.antigravity && !new.apps.claude && !new.apps.gemini);
    assert!(new.tags.is_empty() && new.description.is_none());
    match new.server.get("startup_timeout_ms") {
        Some(JsonValue::Number(JsonNumber::PosInt(t))) => assert_eq!(*t, 1234),
        other => panic!("unexpected {:?}", other),
    }
    assert!(!servers.contains_key("blank"));
}

#[test]
fn import_twice_counts_nothing_the_second_time() {
    let mut config = empty_config();
    let mut live = AntigravityMcpConfig::default();
    live.mcp_servers.insert("time".to_string(), server("npx", Some(60_000)));
    assert_eq!(import_from_antigravity(&mut config, &live), 1);
    assert_eq!(import_from_antigravity(&mut config, &live), 0);
    assert_eq!(config.mcp.servers.as_ref().unwrap().len(), 1);
}

#[test]
fn import_into_missing_table_creates_it() {
    let mut config = empty_config();
    let mut live = AntigravityMcpConfig::default();
    live.mcp_servers.insert("blank".to_string(), server("", None));
    assert_eq!(import_from_antigravity(&mut config, &live), 0);
    assert!(config.mcp.servers.as_ref().unwrap().is_empty());
}
