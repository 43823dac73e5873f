use antigravity::antigravity_config::{
    get_antigravity_conversation_pb_path, get_antigravity_dir, get_antigravity_history_path,
    get_antigravity_mcp_config_path, get_antigravity_settings_path, get_antigravity_skills_dir,
    get_antigravity_transcript_path, AntigravityMcpConfig, AntigravitySettings,
};
use antigravity::json::{get_field, string_items_of, string_table, JsonNumber, JsonValue};
use antigravity::paths::join_path;
use antigravity::table::Table;
use antigravity::text::{is_blank, is_whitespace, trim_str};

fn s(x: &str) -> JsonValue {
    JsonValue::Str(x.to_string())
}

#[test]
fn join_path_inserts_one_separator() {
    assert_eq!(join_path("/home/u", ".gemini"), "/home/u/.gemini");
    assert_eq!(join_path("/home/u/", ".gemini"), "/home/u/.gemini");
    assert_eq!(join_path("", "a"), "a");
    assert_eq!(join_path("/home/u", ""), "/home/u/");
}

#[test]
fn join_path_absolute_component_replaces() {
    assert_eq!(join_path("/home/u", "/etc/passwd"), "/etc/passwd");
}

#[test]
fn antigravity_paths_under_home() {
    assert_eq!(get_antigravity_dir("/home/u"), "/home/u/.gemini/antigravity-cli");
    assert_eq!(
        get_antigravity_settings_path("/home/u"),
        "/home/u/.gemini/antigravity-cli/settings.json"
    );
    assert_eq!(
        get_antigravity_mcp_config_path("/home/u"),
        "/home/u/.gemini/antigravity-cli/mcp_config.json"
    );
    assert_eq!(get_antigravity_skills_dir("/home/u/"), "/home/u/.gemini/antigravity-cli/skills");
    assert_eq!(
        get_antigravity_history_path("/root"),
        "/root/.gemini/antigravity-cli/history.jsonl"
    );
    assert_eq!(
        get_antigravity_transcript_path("/root", "conv1"),
        "/root/.gemini/antigravity-cli/brain/conv1/.system_generated/logs/transcript.jsonl"
    );
    assert_eq!(
        get_antigravity_conversation_pb_path("/root", "conv1"),
        "/root/.gemini/antigravity-cli/conversations/conv1.pb"
    );
}

#[test]
fn defaults_are_empty() {
    let settings = AntigravitySettings::default();
    assert!(settings.model.is_none());
    assert!(settings.color_scheme.is_none());
    assert!(settings.trusted_workspaces.is_empty());
    assert!(settings.base_url.is_none());
    assert!(settings.env_key.is_none());
    assert!(settings.extra.is_empty());
    let config = AntigravityMcpConfig::default();
    assert!(config.mcp_servers.is_empty());
}

#[test]
fn whitespace_is_unicode_white_space() {
    for c in [' ', '\t', '\n', '\r', '\u{0b}', '\u{0c}', '\u{85}', '\u{a0}', '\u{1680}', '\u{2000}',
        '\u{200a}', '\u{2028}', '\u{2029}', '\u{202f}', '\u{205f}', '\u{3000}']
    {
        assert!(is_whitespace(c), "{:?}", c);
        assert_eq!(is_whitespace(c), c.is_whitespace());
    }
    for c in ['a', '\u{200b}', '\u{feff}', '#', '\u{180e}'] {
        assert!(!is_whitespace(c), "{:?}", c);
        assert_eq!(is_whitespace(c), c.is_whitespace());
    }
}

#[test]
fn trim_matches_str_trim() {
    for text in ["  hello  ", "\u{3000}x y\u{2028}", "", "   ", "a", "\n\tabc\n", "é ü"] {
        assert_eq!(trim_str(text), text.trim());
        assert_eq!(is_blank(text), text.trim().is_empty());
    }
}

#[test]
fn get_field_takes_first_member() {
    let fields = vec![
        ("a".to_string(), s("1")),
        ("b".to_string(), s("2")),
        ("a".to_string(), s("3")),
    ];
    match get_field(&fields, "a") {
        Some(JsonValue::Str(v)) => assert_eq!(v, "1"),
        other => panic!("unexpected {:?}", other),
    }
    assert!(get_field(&fields, "c").is_none());
    let obj = JsonValue::Object(fields);
    assert!(obj.get("b").is_some());
    assert!(s("x").get("a").is_none());
}

#[test]
fn string_items_keep_strings_in_order() {
    let items = vec![s("-y"), JsonValue::Number(JsonNumber::PosInt(3)), s("pkg"), JsonValue::Null];
    assert_eq!(string_items_of(&items), vec!["-y".to_string(), "pkg".to_string()]);
}

#[test]
fn string_table_keeps_string_members() {
    let fields = vec![
        ("KEY".to_string(), s("v1")),
        ("NUM".to_string(), JsonValue::Number(JsonNumber::PosInt(1))),
        ("OTHER".to_string(), s("v2")),
    ];
    let t = string_table(&fields);
    assert_eq!(t.len(), 2);
    assert_eq!(t.get("KEY").unwrap(), "v1");
    assert_eq!(t.get("OTHER").unwrap(), "v2");
    assert!(!t.contains_key("NUM"));
}

#[test]
fn table_insert_replaces_and_remove_reports() {
    let mut t: Table<u32> = Table::new();
    assert!(t.is_empty());
    t.insert("a".to_string(), 1);
    t.insert("b".to_string(), 2);
    t.insert("a".to_string(), 3);
    assert_eq!(t.len(), 2);
    assert_eq!(*t.get("a").unwrap(), 3);
    assert_eq!(t.remove("a"), Some(3));
    assert_eq!(t.remove("a"), None);
    assert!(!t.contains_key("a"));
    assert_eq!(t.len(), 1);
    assert_eq!(t.key_at(0), "b");
    assert_eq!(*t.value_at(0), 2);
    t.clear();
    assert!(t.is_empty());
}
