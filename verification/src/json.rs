use vstd::prelude::*;
use serde_json::Value;

use crate::text::json_quoted;

verus! {

/// A JSON value as the diagnostics read it: numbers by their value as a 64-bit integer, when
/// they have one; objects as their (name, value) members in order.
pub enum Json {
    Null,
    Bool(bool),
    Number(Option<i64>),
    Str(Seq<char>),
    Array(Seq<Json>),
    Object(Seq<(Seq<char>, Json)>),
}

pub enum JsonValue {
    Null,
    Bool(bool),
    Number(Option<i64>),
    String(String),
    Array(Vec<JsonValue>),
    Object(Vec<(String, JsonValue)>),
}

impl View for JsonValue {
    type V = Json;

    open spec fn view(&self) -> Json {
        json_view(*self)
    }
}

/// The JSON value that a `JsonValue` holds.
pub open spec fn json_view(v: JsonValue) -> Json
    decreases v, 0nat,
{
    match v {
        JsonValue::Null => Json::Null,
        JsonValue::Bool(b) => Json::Bool(b),
        JsonValue::Number(n) => Json::Number(n),
        JsonValue::String(s) => Json::Str(s@),
        JsonValue::Array(items) => {
            proof {
                assert(decreases_to!(items => items@));
            }
            Json::Array(items_view(items@, items@.len()))
        },
        JsonValue::Object(fields) => {
            proof {
                assert(decreases_to!(fields => fields@));
            }
            Json::Object(members_view(fields@, fields@.len()))
        },
    }
}

/// The views of the first `n` elements.
pub open spec fn items_view(items: Seq<JsonValue>, n: nat) -> Seq<Json>
    decreases items, n,
{
    if n == 0 || n > items.len() {
        seq![]
    } else {
        proof {
            assert(decreases_to!(items => items[n - 1]));
        }
        items_view(items, (n - 1) as nat).push(json_view(items[n - 1]))
    }
}

/// The first `n` members, each name and value by its view.
pub open spec fn members_view(fields: Seq<(String, JsonValue)>, n: nat) -> Seq<(Seq<char>, Json)>
    decreases fields, n,
{
    if n == 0 || n > fields.len() {
        seq![]
    } else {
        proof {
            assert(decreases_to!(fields => fields[n - 1]));
            assert(decreases_to!(fields[n - 1] => fields[n - 1].1));
        }
        members_view(fields, (n - 1) as nat).push((fields[n - 1].0@, json_view(fields[n - 1].1)))
    }
}

proof fn lemma_items_view(items: Seq<JsonValue>, n: nat)
    requires
        n <= items.len(),
    ensures
        items_view(items, n).len() == n,
        forall|k: int| 0 <= k < n ==> #[trigger] items_view(items, n)[k] == json_view(items[k]),
    decreases n,
{
    if n > 0 {
        lemma_items_view(items, (n - 1) as nat);
    }
}

proof fn lemma_members_view(fields: Seq<(String, JsonValue)>, n: nat)
    requires
        n <= fields.len(),
    ensures
        members_view(fields, n).len() == n,
        forall|k: int| 0 <= k < n ==> #[trigger] members_view(fields, n)[k] == (fields[k].0@, json_view(fields[k].1)),
    decreases n,
{
    if n > 0 {
        lemma_members_view(fields, (n - 1) as nat);
    }
}

/// The elements of an array value, each by its view.
pub proof fn lemma_array_view(j: &JsonValue)
    requires
        j is Array,
    ensures
        j@ is Array,
        j@->Array_0.len() == j->Array_0@.len(),
        forall|k: int| 0 <= k < j->Array_0@.len() ==> j@->Array_0[k] == (#[trigger] j->Array_0@[k])@,
{
    lemma_items_view(j->Array_0@, j->Array_0@.len());
}

/// The members of an object value, each name and value by its view.
pub proof fn lemma_object_view(j: &JsonValue)
    requires
        j is Object,
    ensures
        j@ is Object,
        j@->Object_0.len() == j->Object_0@.len(),
        forall|k: int| 0 <= k < j->Object_0@.len() ==> j@->Object_0[k] == ((#[trigger] j->Object_0@[k]).0@, j->Object_0@[k].1@),
{
    lemma_members_view(j->Object_0@, j->Object_0@.len());
}

/// A JSON value of `serde_json`.
#[verifier::external_type_specification]
#[verifier::external_body]
pub struct ExJsonValue(Value);

/// An error that `serde_json` reports.
#[verifier::external_type_specification]
#[verifier::external_body]
pub struct ExJsonError(serde_json::Error);

/// What `serde_json::from_str::<Value>` gives for a text: the value read, or the error.
pub uninterp spec fn json_read(text: Seq<char>) -> Result<Value, serde_json::Error>;

/// What a `serde_json::Value` holds.
pub uninterp spec fn json_tree(v: Value) -> Json;

/// The JSON value that a text spells, by what it holds; none when the text is not JSON.
pub open spec fn json_parse(text: Seq<char>) -> Option<Json> {
    match json_read(text) {
        Ok(v) => Some(json_tree(v)),
        Err(_) => None,
    }
}

/// Reads a text as JSON with `serde_json::from_str::<Value>`: the result is the one named by
/// `json_read`.
#[verifier::external_body]
pub(crate) fn read_json(text: &str) -> (r: Result<Value, serde_json::Error>)
    ensures
        r == json_read(text@),
{
    serde_json::from_str::<Value>(text)
}

/// What `serde_json::to_string_pretty` writes for a value.
pub uninterp spec fn json_pretty(v: Value) -> Seq<char>;

/// Writes a value with `serde_json::to_string_pretty`. Writing a `Value` into the `Vec` that
/// this function fills does not fail: its map keys are strings and the writer cannot fail.
#[verifier::external_body]
pub(crate) fn pretty_json(v: &Value) -> (r: String)
    ensures
        r@ == json_pretty(*v),
{
    match serde_json::to_string_pretty(v) {
        Ok(text) => text,
        Err(_) => String::new(),
    }
}

/// What the `Display` of a `serde_json::Value` writes: its compact JSON text.
pub uninterp spec fn json_compact(v: Value) -> Seq<char>;

/// Writes a value in compact form through its `Display`.
#[verifier::external_body]
pub(crate) fn compact_json(v: &Value) -> (r: String)
    ensures
        r@ == json_compact(*v),
{
    v.to_string()
}

/// What the `Display` of a `serde_json::Error` writes: the message, with line and column.
pub uninterp spec fn json_error_text(e: serde_json::Error) -> Seq<char>;

/// The message of a `serde_json` error, through its `Display`.
#[verifier::external_body]
pub(crate) fn json_error_message(e: &serde_json::Error) -> (r: String)
    ensures
        r@ == json_error_text(*e),
{
    e.to_string()
}

/// One level of a `serde_json::Value`: its variant, with scalars by value (numbers by
/// `Number::as_i64`), array elements and object members by reference, members in map order.
pub enum JsonNode<'a> {
    Null,
    Bool(bool),
    Number(Option<i64>),
    String(String),
    Array(&'a Vec<Value>),
    Object(Vec<(String, &'a Value)>),
}

/// Looks one level into a `serde_json::Value`. It agrees with `json_tree` of the value: the same
/// variant and scalar, and elements and members that are, in order, those of the tree.
#[verifier::external_body]
pub(crate) fn json_node(v: &Value) -> (r: JsonNode<'_>)
    ensures
        match r {
            JsonNode::Null => json_tree(*v) == Json::Null,
            JsonNode::Bool(b) => json_tree(*v) == Json::Bool(b),
            JsonNode::Number(n) => json_tree(*v) == Json::Number(n),
            JsonNode::String(s) => json_tree(*v) == Json::Str(s@),
            JsonNode::Array(items) => json_tree(*v) is Array && json_tree(*v)->Array_0.len() == items@.len()
                && forall|i: int| 0 <= i < items@.len() ==> json_tree(#[trigger] items@[i]) == json_tree(*v)->Array_0[i],
            JsonNode::Object(members) => json_tree(*v) is Object && json_tree(*v)->Object_0.len() == members@.len()
                && forall|i: int| 0 <= i < members@.len() ==> (#[trigger] members@[i]).0@ == json_tree(*v)->Object_0[i].0
                    && json_tree(*members@[i].1) == json_tree(*v)->Object_0[i].1,
        },
{
    match v {
        Value::Null => JsonNode::Null,
        Value::Bool(b) => JsonNode::Bool(*b),
        Value::Number(n) => JsonNode::Number(n.as_i64()),
        Value::String(s) => JsonNode::String(s.clone()),
        Value::Array(items) => JsonNode::Array(items),
        Value::Object(map) => JsonNode::Object(map.iter().map(|(name, value)| (name.clone(), value)).collect()),
    }
}

fn json_of_value(v: &Value) -> (r: JsonValue)
    ensures
        r@ == json_tree(*v),
    decreases json_tree(*v),
{
    match json_node(v) {
        JsonNode::Null => JsonValue::Null,
        JsonNode::Bool(b) => JsonValue::Bool(b),
        JsonNode::Number(n) => JsonValue::Number(n),
        JsonNode::String(s) => JsonValue::String(s),
        JsonNode::Array(items) => {
            let ghost tree = json_tree(*v);
            let mut out: Vec<JsonValue> = Vec::new();
            let mut i: usize = 0;
            while i < items.len()
                invariant
                    tree == json_tree(*v),
                    tree is Array,
                    tree->Array_0.len() == items@.len(),
                    forall|k: int| 0 <= k < items@.len() ==> json_tree(#[trigger] items@[k]) == tree->Array_0[k],
                    i <= items.len(),
                    out@.len() == i,
                    forall|k: int| 0 <= k < i ==> (#[trigger] out@[k])@ == tree->Array_0[k],
                decreases items.len() - i,
            {
                proof {
                    assert(json_tree(items@[i as int]) == tree->Array_0[i as int]);
                }
                let item = json_of_value(&items[i]);
                out.push(item);
                i += 1;
            }
            let ghost outv = out@;
            let r = JsonValue::Array(out);
            proof {
                lemma_array_view(&r);
                assert(r->Array_0@ == outv);
                assert(forall|k: int| 0 <= k < outv.len() ==> r@->Array_0[k] == (#[trigger] outv[k])@);
                assert(r@ is Array);
                assert(r@->Array_0.len() == tree->Array_0.len());
                assert(forall|k: int| 0 <= k < outv.len() ==> outv[k]@ == tree->Array_0[k]);
                assert(r@->Array_0 =~= tree->Array_0);
                assert(r@ == tree);
            }
            r
        },
        JsonNode::Object(members) => {
            let ghost tree = json_tree(*v);
            let mut out: Vec<(String, JsonValue)> = Vec::new();
            let mut i: usize = 0;
            while i < members.len()
                invariant
                    tree == json_tree(*v),
                    tree is Object,
                    tree->Object_0.len() == members@.len(),
                    forall|k: int| 0 <= k < members@.len() ==> (#[trigger] members@[k]).0@ == tree->Object_0[k].0
                        && json_tree(*members@[k].1) == tree->Object_0[k].1,
                    i <= members.len(),
                    out@.len() == i,
                    forall|k: int| 0 <= k < i ==> (#[trigger] out@[k]).0@ == tree->Object_0[k].0 && out@[k].1@ == tree->Object_0[k].1,
                decreases members.len() - i,
            {
                let name = members[i].0.clone();
                proof {
                    assert(json_tree(*members@[i as int].1) == tree->Object_0[i as int].1);
                }
                let value = json_of_value(members[i].1);
                out.push((name, value));
                i += 1;
            }
            let ghost outv = out@;
            let r = JsonValue::Object(out);
            proof {
                lemma_object_view(&r);
                assert(r->Object_0@ == outv);
                assert(forall|k: int| 0 <= k < outv.len() ==> r@->Object_0[k] == ((#[trigger] outv[k]).0@, outv[k].1@));
                assert(r@ is Object);
                assert(r@->Object_0.len() == tree->Object_0.len());
                assert(forall|k: int| 0 <= k < outv.len() ==> (#[trigger] outv[k]).0@ == tree->Object_0[k].0 && outv[k].1@ == tree->Object_0[k].1);
                assert forall|k: int| 0 <= k < outv.len() implies r@->Object_0[k] == tree->Object_0[k] by {
                    let t = tree->Object_0[k];
                    assert(t == (t.0, t.1));
                    assert(outv[k].0@ == t.0);
                }
                assert(r@->Object_0 =~= tree->Object_0);
                assert(r@ == tree);
            }
            r
        },
    }
}

/// Spells a string as a JSON string literal with `serde_json::to_string`: in quotes, with `"`,
/// `\` and the control characters below U+0020 escaped (the short escapes where JSON has one,
/// else `\u00` and two lower-case hex digits) and every other character as it is. Serialising a
/// string does not fail: its writer is a `Vec`.
#[verifier::external_body]
pub(crate) fn json_quote(s: &str) -> (r: String)
    ensures
        r@ == json_quoted(s@),
{
    match serde_json::to_string(s) {
        Ok(text) => text,
        Err(_) => String::new(),
    }
}

/// Parses a text as JSON: the value, or none when it is not JSON.
pub fn parse_json(text: &str) -> (r: Option<JsonValue>)
    ensures
        match r {
            Some(v) => json_parse(text@) == Some(v@),
            None => json_parse(text@) is None,
        },
{
    match read_json(text) {
        Ok(value) => Some(json_of_value(&value)),
        Err(_) => None,
    }
}

} // verus!
