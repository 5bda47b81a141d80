//! JSON values as the library holds them, read from text by serde_json.

use vstd::prelude::*;
use crate::text::strings::same_text;

verus! {

/// A JSON value as the library holds it; an object keeps its entries in
/// source order.
#[derive(Debug)]
pub enum JsonValue {
    Null,
    Bool(bool),
    Number(String),
    Str(String),
    Object(Vec<(String, JsonValue)>),
    Array(Vec<JsonValue>),
}

/// A JSON value as text and sequences.
pub enum JsonView {
    Null,
    Bool(bool),
    Number(Seq<char>),
    Str(Seq<char>),
    Object(Seq<(Seq<char>, JsonView)>),
    Array(Seq<JsonView>),
}

/// The view of a JSON value.
pub open spec fn json_view(v: JsonValue) -> JsonView
    decreases v,
{
    match v {
        JsonValue::Null => JsonView::Null,
        JsonValue::Bool(b) => JsonView::Bool(b),
        JsonValue::Number(s) => JsonView::Number(s@),
        JsonValue::Str(s) => JsonView::Str(s@),
        JsonValue::Object(m) => JsonView::Object(Seq::new(m@.len(), |k: int|
            if 0 <= k < m@.len() { (m@[k].0@, json_view(m@[k].1)) } else { (seq![], JsonView::Null) })),
        JsonValue::Array(a) => JsonView::Array(Seq::new(a@.len(), |k: int|
            if 0 <= k < a@.len() { json_view(a@[k]) } else { JsonView::Null })),
    }
}

/// The children of an object value, as views.
pub proof fn lemma_object_view(m: Vec<(String, JsonValue)>)
    ensures
        json_view(JsonValue::Object(m)) == JsonView::Object(Seq::new(m@.len(), |k: int| (m@[k].0@, json_view(m@[k].1)))),
{
    let w = json_view(JsonValue::Object(m));
    let t = w->Object_0;
    assert(t =~= Seq::new(m@.len(), |k: int| (m@[k].0@, json_view(m@[k].1))));
}

/// The children of an array value, as views.
pub proof fn lemma_array_view(a: Vec<JsonValue>)
    ensures
        json_view(JsonValue::Array(a)) == JsonView::Array(Seq::new(a@.len(), |k: int| json_view(a@[k]))),
{
    let w = json_view(JsonValue::Array(a));
    let t = w->Array_0;
    assert(t =~= Seq::new(a@.len(), |k: int| json_view(a@[k])));
}

/// The value serde_json reads from a text, when the text is valid JSON.
pub uninterp spec fn json_text_value(text: Seq<char>) -> Option<JsonView>;

/// `serde_json::from_str` into a `serde_json::Value`: the value the text
/// holds, or an error when it is not valid JSON. serde_json stops nesting
/// at 128 levels by default, so containers in a result nest at most that
/// deep.
#[verifier::external_body]
pub(crate) fn parse_json(text: &str) -> (r: Result<JsonValue, serde_json::Error>)
    ensures
        match r {
            Ok(v) => json_text_value(text@) == Some(json_view(v)) && jnest(json_view(v)) <= 128,
            Err(_) => json_text_value(text@) is None,
        },
{
    serde_json::from_str::<serde_json::Value>(text).map(json_value)
}

/// Convert a `serde_json::Value` into the library's value, variant for
/// variant; a number keeps its text form.
#[verifier::external_body]
fn json_value(v: serde_json::Value) -> JsonValue {
    match v {
        serde_json::Value::Null => JsonValue::Null,
        serde_json::Value::Bool(b) => JsonValue::Bool(b),
        serde_json::Value::Number(n) => JsonValue::Number(n.to_string()),
        serde_json::Value::String(t) => JsonValue::Str(t),
        serde_json::Value::Array(a) => JsonValue::Array(a.into_iter().map(json_value).collect()),
        serde_json::Value::Object(m) => JsonValue::Object(m.into_iter().map(|(k, x)| (k, json_value(x))).collect()),
    }
}

/// The external declaration of `serde_json::Value`.
#[verifier::external_type_specification]
#[verifier::external_body]
pub struct ExJsonValue(serde_json::Value);

/// The external declaration of `serde_json::Error`.
#[verifier::external_type_specification]
#[verifier::external_body]
pub struct ExJsonError(serde_json::Error);

/// How deeply containers nest in a value (0 for a leaf).
pub open spec fn jnest(v: JsonView) -> nat
    decreases v, 0int,
{
    match v {
        JsonView::Object(s) => 1 + obj_nest(s),
        JsonView::Array(s) => 1 + arr_nest(s),
        _ => 0,
    }
}

/// Deepest nesting among the entries of an object.
pub open spec fn obj_nest(s: Seq<(Seq<char>, JsonView)>) -> nat
    decreases s, 1int,
{
    if s.len() == 0 {
        0
    } else {
        let a = obj_nest(s.subrange(0, s.len() - 1));
        let b = jnest(s[s.len() - 1].1);
        if a >= b { a } else { b }
    }
}

/// Deepest nesting among the items of an array.
pub open spec fn arr_nest(s: Seq<JsonView>) -> nat
    decreases s, 1int,
{
    if s.len() == 0 {
        0
    } else {
        let a = arr_nest(s.subrange(0, s.len() - 1));
        let b = jnest(s[s.len() - 1]);
        if a >= b { a } else { b }
    }
}

/// An entry nests no deeper than the object's entries do.
pub proof fn lemma_obj_nest(s: Seq<(Seq<char>, JsonView)>, k: int)
    requires
        0 <= k < s.len(),
    ensures
        jnest(s[k].1) <= obj_nest(s),
    decreases s.len(),
{
    if k + 1 < s.len() {
        lemma_obj_nest(s.subrange(0, s.len() - 1), k);
    }
}

/// An item nests no deeper than the array's items do.
pub proof fn lemma_arr_nest(s: Seq<JsonView>, k: int)
    requires
        0 <= k < s.len(),
    ensures
        jnest(s[k]) <= arr_nest(s),
    decreases s.len(),
{
    if k + 1 < s.len() {
        lemma_arr_nest(s.subrange(0, s.len() - 1), k);
    }
}

/// The value serde_json reads from bytes, when they are valid JSON.
pub uninterp spec fn json_bytes_value(bytes: Seq<u8>) -> Option<JsonView>;

/// `serde_json::from_slice` into a `serde_json::Value`: the value the
/// bytes hold, or an error when they are not valid UTF-8 JSON.
#[verifier::external_body]
pub(crate) fn parse_json_bytes(bytes: &[u8]) -> (r: Result<JsonValue, serde_json::Error>)
    ensures
        match r {
            Ok(v) => json_bytes_value(bytes@) == Some(json_view(v)),
            Err(_) => json_bytes_value(bytes@) is None,
        },
{
    serde_json::from_slice::<serde_json::Value>(bytes).map(json_value)
}

/// The value under the first entry with key `key`.
pub open spec fn entry_get(es: Seq<(Seq<char>, JsonView)>, key: Seq<char>) -> Option<JsonView>
    decreases es.len(),
{
    if es.len() == 0 {
        None
    } else if es[0].0 == key {
        Some(es[0].1)
    } else {
        entry_get(es.drop_first(), key)
    }
}

/// The value under `key` when `v` is an object holding it (serde_json's
/// `Value::get` with a string key).
pub open spec fn get_key(v: JsonView, key: Seq<char>) -> Option<JsonView> {
    match v {
        JsonView::Object(es) => entry_get(es, key),
        _ => None,
    }
}

/// The text of a string value (serde_json's `as_str`).
pub open spec fn str_of(v: Option<JsonView>) -> Option<Seq<char>> {
    match v {
        Some(JsonView::Str(t)) => Some(t),
        _ => None,
    }
}

/// The view of an optional value reference.
pub open spec fn opt_view(r: Option<&JsonValue>) -> Option<JsonView> {
    match r {
        Some(x) => Some(json_view(*x)),
        None => None,
    }
}

/// The value under `key` when `v` is an object holding it.
pub fn json_get<'a>(v: &'a JsonValue, key: &str) -> (r: Option<&'a JsonValue>)
    ensures
        opt_view(r) == get_key(json_view(*v), key@),
{
    match v {
        JsonValue::Object(m) => {
            let ghost s = Seq::new(m@.len(), |k: int| (m@[k].0@, json_view(m@[k].1)));
            proof { lemma_object_view(*m); }
            let mut k: usize = 0;
            assert(s.skip(0) == s);
            while k < m.len()
                invariant
                    k <= m@.len(),
                    json_view(*v) == JsonView::Object(s),
                    s == Seq::new(m@.len(), |k: int| (m@[k].0@, json_view(m@[k].1))),
                    entry_get(s.skip(k as int), key@) == entry_get(s, key@),
                decreases m@.len() - k,
            {
                assert(s.skip(k as int)[0] == s[k as int]);
                assert(s.skip(k as int).drop_first() == s.skip(k as int + 1));
                if same_text(m[k].0.as_str(), key) {
                    return Some(&m[k].1);
                }
                k = k + 1;
            }
            None
        },
        _ => None,
    }
}

/// The text of a string value.
pub fn json_as_str<'a>(v: Option<&'a JsonValue>) -> (r: Option<&'a String>)
    ensures
        match r { Some(t) => str_of(opt_view(v)) == Some(t@), None => str_of(opt_view(v)) is None },
{
    match v {
        Some(JsonValue::Str(t)) => Some(t),
        _ => None,
    }
}

} // verus!
