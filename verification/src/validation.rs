//! Checks on MCP server entries and connection definitions.

use vstd::prelude::*;
use crate::json::{JsonValue, value_get, str_of};
use crate::text::{trim, is_blank, str_eq};

verus! {

/// The `server` member of a stored entry, when the entry is an object and
/// that member is an object too.
pub open spec fn spec_extract_server(entry: JsonValue) -> Option<JsonValue> {
    match value_get(entry, "server"@) {
        Some(s) => if s is Object {
            Some(s)
        } else {
            None
        },
        None => None,
    }
}

/// The connection definition of a stored MCP entry.
pub fn extract_server_spec(entry: &JsonValue) -> (r: Option<&JsonValue>)
    ensures
        match r {
            Some(s) => spec_extract_server(*entry) == Some(*s),
            None => spec_extract_server(*entry) is None,
        },
{
    match entry.get("server") {
        Some(s) => if s.is_object() {
            Some(s)
        } else {
            None
        },
        None => None,
    }
}

/// The text of a string member, or the empty text.
pub open spec fn text_or_empty(v: Option<JsonValue>) -> Seq<char> {
    match str_of(v) {
        Some(s) => s,
        None => Seq::empty(),
    }
}

/// A connection definition is accepted: an object whose `type` is `stdio`
/// (or absent, or not a string) with a non-blank `command`, or whose `type`
/// is `http` or `sse` with a non-blank `url`.
pub open spec fn spec_server_spec_valid(spec: JsonValue) -> bool {
    &&& spec is Object
    &&& {
        let t = str_of(value_get(spec, "type"@));
        let stdio = t is None || t == Some("stdio"@);
        let remote = t == Some("http"@) || t == Some("sse"@);
        ||| stdio && trim(text_or_empty(value_get(spec, "command"@))).len() > 0
        ||| remote && trim(text_or_empty(value_get(spec, "url"@))).len() > 0
    }
}

/// Whether the member `key` of `spec` is missing, not a string, or blank.
fn member_blank(spec: &JsonValue, key: &str) -> (b: bool)
    ensures
        b == (trim(text_or_empty(value_get(*spec, key@))).len() == 0),
{
    match spec.get(key) {
        Some(JsonValue::Str(s)) => is_blank(s.as_str()),
        _ => {
            assert(trim(Seq::<char>::empty()) =~= Seq::<char>::empty());
            true
        },
    }
}

/// Whether a connection definition is accepted (see `spec_server_spec_valid`).
pub fn validate_server_spec(spec: &JsonValue) -> (b: bool)
    ensures
        b == spec_server_spec_valid(*spec),
{
    if !spec.is_object() {
        return false;
    }
    let (stdio, remote) = match spec.get("type") {
        Some(JsonValue::Str(t)) => (
            str_eq(t.as_str(), "stdio"),
            str_eq(t.as_str(), "http") || str_eq(t.as_str(), "sse"),
        ),
        _ => (true, false),
    };
    (stdio && !member_blank(spec, "command")) || (remote && !member_blank(spec, "url"))
}

} // verus!
