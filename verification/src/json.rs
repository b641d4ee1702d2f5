//! JSON values as the library reads them: the tree that a JSON document parses into,
//! with the lookups that the JSON form of a Cocos plist needs.
use vstd::prelude::*;

verus! {

/// A parsed JSON value. Numbers keep what `serde_json::Number::as_i64` gives (`None` for a
/// number that is not an integer in `i64` range); objects keep their entries in order, with
/// each key once.
#[derive(Debug, PartialEq)]
pub enum JsonValue {
    Null,
    Bool(bool),
    Number(Option<i64>),
    Str(String),
    Array(Vec<JsonValue>),
    Object(Vec<(String, JsonValue)>),
}

/// The value of the first entry named `key` among `entries[k..]`.
pub open spec fn entry_value(entries: Seq<(String, JsonValue)>, key: Seq<char>, k: int) -> Option<
    JsonValue,
>
    decreases entries.len() - k,
{
    if k < 0 || k >= entries.len() {
        None
    } else if entries[k].0@ == key {
        Some(entries[k].1)
    } else {
        entry_value(entries, key, k + 1)
    }
}

/// `Value::get` with a key: the member of an object, `None` for anything else.
pub open spec fn json_get(v: JsonValue, key: Seq<char>) -> Option<JsonValue> {
    match v {
        JsonValue::Object(entries) => entry_value(entries@, key, 0),
        _ => None,
    }
}

/// `Value::get` on an optional value.
pub open spec fn json_get_opt(v: Option<JsonValue>, key: Seq<char>) -> Option<JsonValue> {
    match v {
        Some(x) => json_get(x, key),
        None => None,
    }
}

/// `Value::as_str`.
pub open spec fn json_str(v: Option<JsonValue>) -> Option<Seq<char>> {
    match v {
        Some(JsonValue::Str(s)) => Some(s@),
        _ => None,
    }
}

/// `Value::as_i64`.
pub open spec fn json_i64(v: Option<JsonValue>) -> Option<i64> {
    match v {
        Some(JsonValue::Number(n)) => n,
        _ => None,
    }
}

/// `Value::as_bool`.
pub open spec fn json_bool(v: Option<JsonValue>) -> Option<bool> {
    match v {
        Some(JsonValue::Bool(b)) => Some(b),
        _ => None,
    }
}

impl JsonValue {
    /// `Value::get` with a key.
    pub fn get(&self, key: &str) -> (r: Option<&JsonValue>)
        ensures
            match r {
                Some(x) => json_get(*self, key@) == Some(*x),
                None => json_get(*self, key@) is None,
            },
    {
        match self {
            JsonValue::Object(entries) => {
                let kc = crate::text::chars_of(key);
                let mut k: usize = 0;
                while k < entries.len()
                    invariant
                        k <= entries.len(),
                        *self == JsonValue::Object(*entries),
                        kc@ == key@,
                        entry_value(entries@, key@, 0) == entry_value(entries@, key@, k as int),
                    decreases entries.len() - k,
                {
                    let ec = crate::text::chars_of(entries[k].0.as_str());
                    if crate::text::chars_eq(ec.as_slice(), kc.as_slice()) {
                        return Some(&entries[k].1);
                    }
                    k = k + 1;
                }
                None
            },
            _ => None,
        }
    }

    /// `Value::as_str`.
    pub fn as_str(&self) -> (r: Option<&String>)
        ensures
            match r {
                Some(s) => json_str(Some(*self)) == Some(s@),
                None => json_str(Some(*self)) is None,
            },
    {
        match self {
            JsonValue::Str(s) => Some(s),
            _ => None,
        }
    }

    /// `Value::as_i64`.
    pub fn as_i64(&self) -> (r: Option<i64>)
        ensures
            r == json_i64(Some(*self)),
    {
        match self {
            JsonValue::Number(n) => *n,
            _ => None,
        }
    }

    /// `Value::as_bool`.
    pub fn as_bool(&self) -> (r: Option<bool>)
        ensures
            r == json_bool(Some(*self)),
    {
        match self {
            JsonValue::Bool(b) => Some(*b),
            _ => None,
        }
    }
}

// ---------------------------------------------------------------------------
// Parsing
// ---------------------------------------------------------------------------

#[verifier::external_type_specification]
#[verifier::external_body]
pub struct ExSerdeJsonValue(serde_json::Value);

/// What `serde_json::from_str::<serde_json::Value>` makes of a text, taken into a
/// `JsonValue`: `None` when the text is not a JSON document. Objects come in the order of
/// serde_json's default map, which is sorted by key.
pub uninterp spec fn json_document(text: Seq<char>) -> Option<JsonValue>;

/// Takes a parsed `serde_json::Value` into a `JsonValue`, variant by variant: numbers by
/// `Number::as_i64`, object members in the map's order. Nothing is claimed of the result;
/// `parse_json_text` states what the two together give.
#[verifier::external_body]
fn json_value_of(v: &serde_json::Value) -> (r: JsonValue) {
    match v {
        serde_json::Value::Null => JsonValue::Null,
        serde_json::Value::Bool(b) => JsonValue::Bool(*b),
        serde_json::Value::Number(n) => JsonValue::Number(n.as_i64()),
        serde_json::Value::String(s) => JsonValue::Str(s.clone()),
        serde_json::Value::Array(items) => JsonValue::Array(items.iter().map(json_value_of).collect()),
        serde_json::Value::Object(map) => JsonValue::Object(
            map.iter().map(|(k, x)| (k.clone(), json_value_of(x))).collect(),
        ),
    }
}

/// Calls `serde_json::from_str::<serde_json::Value>` and takes the document into a
/// `JsonValue`. Claimed: the result is `json_document(text@)`, a function of the text
/// alone (serde_json's default map is a sorted `BTreeMap`, so the order of members does not
/// depend on the process); `None` exactly when serde_json reports an error.
#[verifier::external_body]
pub fn parse_json_text(text: &str) -> (r: Option<JsonValue>)
    ensures
        r == json_document(text@),
{
    match serde_json::from_str::<serde_json::Value>(text) {
        Ok(v) => Some(json_value_of(&v)),
        Err(_) => None,
    }
}

} // verus!
