use vstd::prelude::*;

verus! {

/// A JSON value as plain values: numbers are kept as what `as_u64` gives for
/// them (the value of a non-negative integer that fits in a `u64`).
pub enum JsonModel {
    Null,
    Bool(bool),
    Number(Option<u64>),
    Str(Seq<char>),
    Array(Seq<JsonModel>),
    Object(Map<Seq<char>, JsonModel>),
}

#[verifier::external_type_specification]
#[verifier::external_body]
pub struct ExJsonValue(serde_json::Value);

/// What a `serde_json::Value` holds.
pub uninterp spec fn json_model(v: serde_json::Value) -> JsonModel;

/// What `serde_json::from_str` makes of a text: `None` when the text is not
/// one JSON value.
pub uninterp spec fn json_parse(text: Seq<char>) -> Option<JsonModel>;

/// `serde_json::from_str::<Value>`: the contract claims only that the value
/// parsed is the one `json_parse` names for the text, and that parsing
/// fails exactly when that name is `None`.
#[verifier::external_body]
pub(crate) fn json_from_str(text: &str) -> (r: Option<serde_json::Value>)
    ensures
        match r {
            Some(v) => json_parse(text@) == Some(json_model(v)),
            None => json_parse(text@) is None,
        },
{
    serde_json::from_str::<serde_json::Value>(text).ok()
}

/// `Value::get` with a string key: the member of an object under `key`;
/// `None` when the value is not an object or has no such member.
#[verifier::external_body]
pub(crate) fn json_get<'a>(v: &'a serde_json::Value, key: &str) -> (r: Option<&'a serde_json::Value>)
    ensures
        match r {
            Some(w) => json_model(*v) is Object && json_model(*v)->Object_0.contains_key(key@)
                && json_model(*w) == json_model(*v)->Object_0[key@],
            None => !(json_model(*v) is Object && json_model(*v)->Object_0.contains_key(key@)),
        },
{
    v.get(key)
}

/// `Value::as_str`: the text of a JSON string, `None` for any other value.
#[verifier::external_body]
pub(crate) fn json_as_str<'a>(v: &'a serde_json::Value) -> (r: Option<&'a str>)
    ensures
        match r {
            Some(s) => json_model(*v) == JsonModel::Str(s@),
            None => !(json_model(*v) is Str),
        },
{
    v.as_str()
}

/// `Value::as_array`: the elements of a JSON array, `None` for any other
/// value.
#[verifier::external_body]
pub(crate) fn json_as_array<'a>(v: &'a serde_json::Value) -> (r: Option<&'a Vec<serde_json::Value>>)
    ensures
        match r {
            Some(a) => json_model(*v) == JsonModel::Array(a@.map_values(|e: serde_json::Value| json_model(e))),
            None => !(json_model(*v) is Array),
        },
{
    v.as_array()
}

/// `Value::as_u64`: the number, when the value is a non-negative integer
/// that fits in a `u64`.
#[verifier::external_body]
pub(crate) fn json_as_u64(v: &serde_json::Value) -> (r: Option<u64>)
    ensures
        r == match json_model(*v) {
            JsonModel::Number(n) => n,
            _ => None,
        },
{
    v.as_u64()
}

/// `Value::as_object` followed by `Map::values`: the members of a JSON
/// object, in an order the contract leaves open; `None` for any other value.
#[verifier::external_body]
pub(crate) fn json_object_values<'a>(v: &'a serde_json::Value) -> (r: Option<Vec<&'a serde_json::Value>>)
    ensures
        match r {
            Some(vals) => json_model(*v) is Object && vals@.len() == json_model(*v)->Object_0.dom().len()
                && (forall|i: int| 0 <= i < vals@.len() ==> exists|k: Seq<char>|
                    json_model(*v)->Object_0.contains_key(k) && json_model(*v)->Object_0[k] == json_model(*#[trigger] vals@[i]))
                && (forall|k: Seq<char>| #[trigger] json_model(*v)->Object_0.contains_key(k) ==> exists|i: int|
                    0 <= i < vals@.len() && json_model(*v)->Object_0[k] == json_model(*vals@[i])),
            None => !(json_model(*v) is Object),
        },
{
    v.as_object().map(|m| m.values().collect())
}

// ---------------------------------------------------------------------------
// Reading a model
// ---------------------------------------------------------------------------

/// The member `key` of an object.
pub open spec fn member(v: JsonModel, key: Seq<char>) -> Option<JsonModel> {
    match v {
        JsonModel::Object(m) => if m.contains_key(key) { Some(m[key]) } else { None },
        _ => None,
    }
}

/// The member `key` of an optional object.
pub open spec fn member_of(v: Option<JsonModel>, key: Seq<char>) -> Option<JsonModel> {
    match v {
        Some(x) => member(x, key),
        None => None,
    }
}

/// The text of an optional JSON string.
pub open spec fn text_of(v: Option<JsonModel>) -> Option<Seq<char>> {
    match v {
        Some(JsonModel::Str(s)) => Some(s),
        _ => None,
    }
}

/// The number of an optional JSON number, as `as_u64` gives it.
pub open spec fn number_of(v: Option<JsonModel>) -> Option<u64> {
    match v {
        Some(JsonModel::Number(n)) => n,
        _ => None,
    }
}

/// The first element of an optional JSON array.
pub open spec fn first_of(v: Option<JsonModel>) -> Option<JsonModel> {
    match v {
        Some(JsonModel::Array(items)) => if items.len() > 0 { Some(items[0]) } else { None },
        _ => None,
    }
}

/// The member `key` of `v`, if `v` is an object that has one.
pub fn get_member<'a>(v: Option<&'a serde_json::Value>, key: &str) -> (r: Option<&'a serde_json::Value>)
    ensures
        match r {
            Some(w) => member_of(match v { Some(x) => Some(json_model(*x)), None => None }, key@) == Some(json_model(*w)),
            None => member_of(match v { Some(x) => Some(json_model(*x)), None => None }, key@) is None,
        },
{
    match v {
        Some(x) => json_get(x, key),
        None => None,
    }
}

/// The text of `v`, if it is a JSON string.
pub fn get_text(v: Option<&serde_json::Value>) -> (r: Option<String>)
    ensures
        match r {
            Some(s) => text_of(match v { Some(x) => Some(json_model(*x)), None => None }) == Some(s@),
            None => text_of(match v { Some(x) => Some(json_model(*x)), None => None }) is None,
        },
{
    match v {
        Some(x) => match json_as_str(x) {
            Some(s) => Some(String::from_str(s)),
            None => None,
        },
        None => None,
    }
}

/// The number of `v`, as `as_u64` gives it.
pub fn get_number(v: Option<&serde_json::Value>) -> (r: Option<u64>)
    ensures
        r == number_of(match v { Some(x) => Some(json_model(*x)), None => None }),
{
    match v {
        Some(x) => json_as_u64(x),
        None => None,
    }
}

/// The first element of `v`, if it is a non-empty JSON array.
pub fn get_first<'a>(v: Option<&'a serde_json::Value>) -> (r: Option<&'a serde_json::Value>)
    ensures
        match r {
            Some(w) => first_of(match v { Some(x) => Some(json_model(*x)), None => None }) == Some(json_model(*w)),
            None => first_of(match v { Some(x) => Some(json_model(*x)), None => None }) is None,
        },
{
    match v {
        Some(x) => match json_as_array(x) {
            Some(items) => {
                if items.len() > 0 {
                    Some(&items[0])
                } else {
                    None
                }
            },
            None => None,
        },
        None => None,
    }
}

/// The text, or `default` when there is none.
pub open spec fn text_or(t: Option<Seq<char>>, default: Seq<char>) -> Seq<char> {
    match t {
        Some(s) => s,
        None => default,
    }
}

/// The text, or `default` when there is none.
pub fn or_text(t: Option<String>, default: &str) -> (r: String)
    ensures
        r@ == text_or(match t { Some(s) => Some(s@), None => None }, default@),
{
    match t {
        Some(s) => s,
        None => String::from_str(default),
    }
}

/// The elements of `v`, if it is a JSON array.
pub fn get_items(v: &serde_json::Value) -> (r: Option<&Vec<serde_json::Value>>)
    ensures
        match r {
            Some(a) => json_model(*v) == JsonModel::Array(a@.map_values(|e: serde_json::Value| json_model(e))),
            None => !(json_model(*v) is Array),
        },
{
    json_as_array(v)
}

} // verus!
