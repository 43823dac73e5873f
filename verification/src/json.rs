//! A JSON value as plain data.
//!
//! Objects keep their members in order; keys are expected to be distinct, as
//! `serde_json` produces them, and a lookup takes the first member with the
//! key. Numbers keep what the logic reads of them: integers exactly, and of a
//! number with a fraction or an exponent its text and its two saturating
//! conversions to `u64` (floating point stays outside the library).

use vstd::prelude::*;
use crate::table::Table;
use crate::table::map_of;

verus! {

/// A number with a fraction or an exponent.
#[derive(Debug)]
pub struct FloatNumber {
    /// The number as `serde_json` writes it.
    pub text: String,
    /// `f as u64`: truncated toward zero, saturating at the bounds of `u64`.
    pub truncated: u64,
    /// `(f * 1000.0) as u64`, computed the same way.
    pub thousandfold: u64,
}

/// A JSON number.
#[derive(Debug)]
pub enum JsonNumber {
    /// A non-negative integer.
    PosInt(u64),
    /// A negative integer.
    NegInt(i64),
    /// Any other number.
    Float(FloatNumber),
}

/// A JSON value.
#[derive(Debug)]
pub enum JsonValue {
    Null,
    Bool(bool),
    Number(JsonNumber),
    Str(String),
    Array(Vec<JsonValue>),
    Object(Vec<(String, JsonValue)>),
}

/// The first member of `fields` keyed `key`.
pub open spec fn obj_get(fields: Seq<(String, JsonValue)>, key: Seq<char>) -> Option<JsonValue>
    decreases fields.len(),
{
    if fields.len() == 0 {
        None
    } else if fields[0].0@ == key {
        Some(fields[0].1)
    } else {
        obj_get(fields.drop_first(), key)
    }
}

/// `obj_get` finds the first member with the key, and nothing when no member
/// has it.
pub proof fn lemma_obj_get(fields: Seq<(String, JsonValue)>, key: Seq<char>, i: int)
    requires
        0 <= i <= fields.len(),
        forall|j: int| 0 <= j < i ==> fields[j].0@ != key,
        i < fields.len() ==> fields[i].0@ == key,
    ensures
        obj_get(fields, key) == if i < fields.len() {
            Some(fields[i].1)
        } else {
            None
        },
    decreases i,
{
    if i > 0 {
        let d = fields.drop_first();
        assert forall|j: int| 0 <= j < i - 1 implies d[j].0@ != key by {
            assert(d[j] == fields[j + 1]);
        }
        if i < fields.len() {
            assert(d[i - 1] == fields[i]);
        }
        lemma_obj_get(d, key, i - 1);
    }
}

/// The member keyed `key` of `v`, when `v` is an object.
pub open spec fn value_get(v: JsonValue, key: Seq<char>) -> Option<JsonValue> {
    match v {
        JsonValue::Object(fields) => obj_get(fields@, key),
        _ => None,
    }
}

/// The text of a string value.
pub open spec fn str_of(v: Option<JsonValue>) -> Option<Seq<char>> {
    match v {
        Some(JsonValue::Str(s)) => Some(s@),
        _ => None,
    }
}

/// The string elements of an array, in order.
pub open spec fn string_items(items: Seq<JsonValue>) -> Seq<String> {
    items.filter_map(
        |v: JsonValue|
            match v {
                JsonValue::Str(s) => Some(s),
                _ => None,
            },
    )
}

/// The members of an object whose value is a string, as key/text pairs.
pub open spec fn string_entries(fields: Seq<(String, JsonValue)>) -> Seq<(String, String)> {
    fields.filter_map(
        |e: (String, JsonValue)|
            match e.1 {
                JsonValue::Str(s) => Some((e.0, s)),
                _ => None,
            },
    )
}

/// The member keyed `key` of `fields`: the first one, as `obj_get` says.
pub fn get_field<'a>(fields: &'a Vec<(String, JsonValue)>, key: &str) -> (r: Option<&'a JsonValue>)
    ensures
        match r {
            Some(v) => obj_get(fields@, key@) == Some(*v),
            None => obj_get(fields@, key@) is None,
        },
{
    let k = key.to_owned();
    let n = fields.len();
    let mut i: usize = 0;
    assert(fields@.skip(0) =~= fields@);
    while i < n
        invariant
            n == fields@.len(),
            i <= n,
            k@ == key@,
            obj_get(fields@, key@) == obj_get(fields@.skip(i as int), key@),
        decreases n - i,
    {
        assert(fields@.skip(i as int)[0] == fields@[i as int]);
        if fields[i].0 == k {
            return Some(&fields[i].1);
        }
        assert(fields@.skip(i as int).drop_first() =~= fields@.skip(i as int + 1));
        i = i + 1;
    }
    None
}

impl JsonValue {
    /// The member keyed `key`, when this is an object.
    pub fn get(&self, key: &str) -> (r: Option<&JsonValue>)
        ensures
            match r {
                Some(v) => value_get(*self, key@) == Some(*v),
                None => value_get(*self, key@) is None,
            },
    {
        match self {
            JsonValue::Object(fields) => get_field(fields, key),
            _ => None,
        }
    }

    /// Whether this is an object.
    pub fn is_object(&self) -> (b: bool)
        ensures
            b == (*self is Object),
    {
        match self {
            JsonValue::Object(_) => true,
            _ => false,
        }
    }
}

/// The string elements of `items`, in order.
pub fn string_items_of(items: &Vec<JsonValue>) -> (r: Vec<String>)
    ensures
        r@ == string_items(items@),
{
    let mut r: Vec<String> = Vec::new();
    let n = items.len();
    let mut i: usize = 0;
    while i < n
        invariant
            n == items@.len(),
            i <= n,
            r@ == string_items(items@.take(i as int)),
        decreases n - i,
    {
        assert(items@.take(i as int + 1).drop_last() =~= items@.take(i as int));
        match &items[i] {
            JsonValue::Str(s) => {
                r.push(s.clone());
            },
            _ => {},
        }
        i = i + 1;
    }
    assert(items@.take(n as int) =~= items@);
    r
}

/// The string-valued members of an object as a table; a later member with
/// the same key overrides an earlier one, as collecting into a map does.
pub fn string_table(fields: &Vec<(String, JsonValue)>) -> (t: Table<String>)
    ensures
        t@ == map_of(string_entries(fields@)),
{
    let mut t: Table<String> = Table::new();
    let n = fields.len();
    let mut i: usize = 0;
    while i < n
        invariant
            n == fields@.len(),
            i <= n,
            t@ == map_of(string_entries(fields@.take(i as int))),
        decreases n - i,
    {
        assert(fields@.take(i as int + 1).drop_last() =~= fields@.take(i as int));
        let ghost prev = string_entries(fields@.take(i as int));
        match &fields[i].1 {
            JsonValue::Str(s) => {
                let k = fields[i].0.clone();
                let v = s.clone();
                proof {
                    let x = (k, v);
                    assert(string_entries(fields@.take(i as int + 1)) == prev + seq![x]);
                    assert((prev + seq![x]).drop_last() =~= prev);
                }
                t.insert(k, v);
            },
            _ => {},
        }
        i = i + 1;
    }
    assert(fields@.take(n as int) =~= fields@);
    t
}

} // verus!
