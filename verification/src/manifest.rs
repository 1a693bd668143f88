//! What a project's `package.json` says: its name, its script names, and the
//! workspace patterns it declares, either as a `workspaces` array or as the
//! `packages` array of a `workspaces` object. Only strings count as patterns.
use vstd::prelude::*;
use crate::error::{invalid, AppError, AppResult};
use crate::text::{push_str, str_eq, texts};

verus! {

#[verifier::external_type_specification]
#[verifier::external_body]
pub struct ExJsonDocument(serde_json::Value);

/// A JSON value as the manifest rules read it: strings, arrays and objects, each
/// object's entries in the order the parser keeps them, and everything else alike.
#[derive(Debug)]
pub enum JsonValue {
    Text(String),
    Array(Vec<JsonValue>),
    Object(Vec<(String, JsonValue)>),
    Other,
}

/// What `serde_json::from_str::<serde_json::Value>` makes of a text: the value it
/// denotes, or the text of its error.
pub uninterp spec fn json_value_of(text: Seq<char>) -> Result<JsonValue, Seq<char>>;

/// A `serde_json::Value` as a [`JsonValue`], one variant for one variant; `null`,
/// booleans and numbers all become [`JsonValue::Other`].
#[verifier::external_body]
fn json_value(value: &serde_json::Value) -> JsonValue {
    match value {
        serde_json::Value::Null => JsonValue::Other,
        serde_json::Value::Bool(_) => JsonValue::Other,
        serde_json::Value::Number(_) => JsonValue::Other,
        serde_json::Value::String(text) => JsonValue::Text(text.clone()),
        serde_json::Value::Array(items) => JsonValue::Array(items.iter().map(json_value).collect()),
        serde_json::Value::Object(entries) => {
            JsonValue::Object(entries.iter().map(|(key, item)| (key.clone(), json_value(item))).collect())
        }
    }
}

/// `serde_json::from_str::<serde_json::Value>`, with its error as text. What the JSON
/// grammar accepts and how serde_json words a refusal are named by
/// [`json_value_of`], not restated.
#[verifier::external_body]
fn read_json_value(text: &str) -> (r: Result<JsonValue, String>)
    ensures
        match r {
            Ok(v) => json_value_of(text@) == Ok::<JsonValue, Seq<char>>(v),
            Err(m) => json_value_of(text@) == Err::<JsonValue, Seq<char>>(m@),
        },
{
    match serde_json::from_str::<serde_json::Value>(text) {
        Ok(value) => Ok(json_value(&value)),
        Err(error) => Err(error.to_string()),
    }
}

/// The value stored under `key` in an object's entries: the first entry of that name.
pub open spec fn entry_named(entries: Seq<(String, JsonValue)>, key: Seq<char>) -> Option<JsonValue>
    decreases entries.len(),
{
    if entries.len() == 0 {
        None
    } else if entries[0].0@ == key {
        Some(entries[0].1)
    } else {
        entry_named(entries.drop_first(), key)
    }
}

/// The member `key` of an object; nothing for any other value.
pub open spec fn member(value: JsonValue, key: Seq<char>) -> Option<JsonValue> {
    match value {
        JsonValue::Object(entries) => entry_named(entries@, key),
        _ => None,
    }
}

/// The strings among `items`, in order.
pub open spec fn texts_in(items: Seq<JsonValue>) -> Seq<Seq<char>>
    decreases items.len(),
{
    if items.len() == 0 {
        Seq::empty()
    } else {
        let rest = texts_in(items.drop_last());
        match items.last() {
            JsonValue::Text(text) => rest.push(text@),
            _ => rest,
        }
    }
}

/// The `name` of a manifest, when it is a string.
pub open spec fn manifest_name(manifest: JsonValue) -> Option<Seq<char>> {
    match member(manifest, "name"@) {
        Some(JsonValue::Text(name)) => Some(name@),
        _ => None,
    }
}

/// The names of a manifest's `scripts`, in the order the object holds them; none when
/// `scripts` is not an object.
pub open spec fn manifest_scripts(manifest: JsonValue) -> Seq<Seq<char>> {
    match member(manifest, "scripts"@) {
        Some(JsonValue::Object(entries)) => entries@.map_values(|entry: (String, JsonValue)| entry.0@),
        _ => Seq::empty(),
    }
}

/// The workspace patterns a manifest declares: the strings of a `workspaces` array,
/// or of the `packages` array of a `workspaces` object.
pub open spec fn manifest_workspaces(manifest: JsonValue) -> Seq<Seq<char>> {
    match member(manifest, "workspaces"@) {
        Some(JsonValue::Array(items)) => texts_in(items@),
        Some(JsonValue::Object(entries)) => match entry_named(entries@, "packages"@) {
            Some(JsonValue::Array(items)) => texts_in(items@),
            _ => Seq::empty(),
        },
        _ => Seq::empty(),
    }
}

/// The refusal for a manifest that is not JSON.
pub open spec fn invalid_manifest_message(error: Seq<char>) -> Seq<char> {
    "Invalid project manifest: "@ + error
}

/// What a project's `package.json` declares.
#[derive(Debug, Clone, PartialEq, Eq)]
pub struct PackageManifest {
    pub name: Option<String>,
    pub script_names: Vec<String>,
    pub workspace_patterns: Vec<String>,
}

/// The entry stored under `key` among `entries`, if any.
fn entry_of<'a>(entries: &'a Vec<(String, JsonValue)>, key: &str) -> (r: Option<&'a JsonValue>)
    ensures
        match r {
            Some(v) => entry_named(entries@, key@) == Some(*v),
            None => entry_named(entries@, key@) is None,
        },
{
    let mut i: usize = 0;
    assert(entries@.skip(0) =~= entries@);
    while i < entries.len()
        invariant
            i <= entries@.len(),
            entry_named(entries@, key@) == entry_named(entries@.skip(i as int), key@),
        decreases entries@.len() - i,
    {
        proof {
            assert(entries@.skip(i as int)[0] == entries@[i as int]);
            assert(entries@.skip(i as int).drop_first() =~= entries@.skip(i + 1));
        }
        if str_eq(entries[i].0.as_str(), key) {
            return Some(&entries[i].1);
        }
        i = i + 1;
    }
    proof {
        assert(entries@.skip(i as int).len() == 0);
    }
    None
}

/// The member `key` of an object value, if any.
fn member_of<'a>(value: &'a JsonValue, key: &str) -> (r: Option<&'a JsonValue>)
    ensures
        match r {
            Some(v) => member(*value, key@) == Some(*v),
            None => member(*value, key@) is None,
        },
{
    match value {
        JsonValue::Object(entries) => entry_of(entries, key),
        _ => None,
    }
}

/// The strings among `items`, in order.
fn texts_of(items: &Vec<JsonValue>) -> (r: Vec<String>)
    ensures
        texts(r@) == texts_in(items@),
{
    let mut r: Vec<String> = Vec::new();
    let mut i: usize = 0;
    while i < items.len()
        invariant
            i <= items@.len(),
            texts(r@) == texts_in(items@.subrange(0, i as int)),
        decreases items@.len() - i,
    {
        let ghost prefix = items@.subrange(0, i + 1);
        proof {
            assert(prefix.drop_last() =~= items@.subrange(0, i as int));
            assert(prefix.last() == items@[i as int]);
        }
        match &items[i] {
            JsonValue::Text(text) => {
                let ghost before = r@;
                r.push(text.clone());
                proof {
                    assert(texts(r@) =~= texts(before).push(text@));
                }
            }
            _ => {}
        }
        i = i + 1;
    }
    proof {
        assert(items@.subrange(0, i as int) =~= items@);
    }
    r
}

/// The keys of an object's entries, in order.
fn keys_of(entries: &Vec<(String, JsonValue)>) -> (r: Vec<String>)
    ensures
        texts(r@) == entries@.map_values(|entry: (String, JsonValue)| entry.0@),
{
    let mut r: Vec<String> = Vec::new();
    let mut i: usize = 0;
    while i < entries.len()
        invariant
            i <= entries@.len(),
            r@.len() == i,
            texts(r@) == entries@.subrange(0, i as int).map_values(|entry: (String, JsonValue)| entry.0@),
        decreases entries@.len() - i,
    {
        let ghost before = r@;
        r.push(entries[i].0.clone());
        proof {
            assert forall|x: int| 0 <= x < i + 1 implies #[trigger] texts(r@)[x] == entries@.subrange(0, i + 1).map_values(
                |entry: (String, JsonValue)| entry.0@)[x] by {
                assert(texts(r@)[x] == r@[x]@);
                if x < i {
                    assert(r@[x] == before[x]);
                    assert(texts(before)[x] == entries@.subrange(0, i as int).map_values(
                        |entry: (String, JsonValue)| entry.0@)[x]);
                }
            }
            assert(texts(r@) =~= entries@.subrange(0, i + 1).map_values(|entry: (String, JsonValue)| entry.0@));
        }
        i = i + 1;
    }
    proof {
        assert(entries@.subrange(0, i as int) =~= entries@);
    }
    r
}

/// Whether `m` holds what the manifest `value` declares.
pub open spec fn manifest_of(m: PackageManifest, value: JsonValue) -> bool {
    &&& match m.name {
        Some(n) => manifest_name(value) == Some(n@),
        None => manifest_name(value) is None,
    }
    &&& texts(m.script_names@) == manifest_scripts(value)
    &&& texts(m.workspace_patterns@) == manifest_workspaces(value)
}

/// What a parsed `package.json` declares: its `name` when that is a string, the names
/// of its `scripts` when that is an object, and its workspace patterns.
pub fn manifest_from_value(value: &JsonValue) -> (m: PackageManifest)
    ensures
        manifest_of(m, *value),
{
    proof {
        reveal_strlit("name");
        reveal_strlit("scripts");
        reveal_strlit("workspaces");
        reveal_strlit("packages");
    }
    let name = match member_of(value, "name") {
        Some(JsonValue::Text(name)) => Some(name.clone()),
        _ => None,
    };
    let script_names = match member_of(value, "scripts") {
        Some(JsonValue::Object(entries)) => keys_of(entries),
        _ => Vec::new(),
    };
    let workspace_patterns = match member_of(value, "workspaces") {
        Some(JsonValue::Array(items)) => texts_of(items),
        Some(JsonValue::Object(entries)) => match entry_of(entries, "packages") {
            Some(JsonValue::Array(items)) => texts_of(items),
            _ => Vec::new(),
        },
        _ => Vec::new(),
    };
    assert(texts(script_names@) =~= manifest_scripts(*value));
    assert(texts(workspace_patterns@) =~= manifest_workspaces(*value));
    PackageManifest { name, script_names, workspace_patterns }
}

/// What a `package.json` declares: its `name` when that is a string, the names of its
/// `scripts` when that is an object, and its workspace patterns. A text that is not
/// JSON is refused with the parser's own words.
pub fn parse_manifest(text: &str) -> (r: AppResult<PackageManifest>)
    ensures
        json_value_of(text@) matches Ok(v) ==> (r matches Ok(m) && manifest_of(m, v)),
        json_value_of(text@) matches Err(e) ==> (r matches Err(x) && x is Message && x.text() == invalid_manifest_message(e)),
{
    match read_json_value(text) {
        Ok(value) => Ok(manifest_from_value(&value)),
        Err(error) => {
            let mut message = String::new();
            push_str(&mut message, "Invalid project manifest: ");
            push_str(&mut message, error.as_str());
            Err(invalid(message))
        }
    }
}

} // verus!
