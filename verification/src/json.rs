//! JSON values as the library sees them.
//!
//! Values are `serde_json::Value`s. The verifier cannot look inside one, so
//! this module gives every value a mathematical model, [`JsonModel`], and
//! states for each `serde_json` operation the library uses what it does to
//! the model. Those statements are trusted; everything built on them is
//! proved.

use vstd::prelude::*;

verus! {

/// `serde_json::Value`, carried through verified code as an opaque value.
#[verifier::external_type_specification]
#[verifier::external_body]
pub struct ExJsonValue(serde_json::Value);

/// `serde_json::Error`, carried through verified code as an opaque value.
#[verifier::external_type_specification]
#[verifier::external_body]
pub struct ExJsonError(serde_json::Error);

/// The mathematical content of a JSON value.
///
/// Integers cover what `serde_json` stores as `u64` or as a negative `i64`;
/// every other number is a float, identified here by the bits of its `f64`.
/// An object maps each key to one member.
pub enum JsonModel {
    Null,
    Bool(bool),
    Int(int),
    Float(u64),
    String(Seq<char>),
    Array(Seq<JsonModel>),
    Object(Map<Seq<char>, JsonModel>),
}

impl JsonModel {
    /// The member stored under `key`, if this is an object that has one.
    pub open spec fn member(self, key: Seq<char>) -> Option<JsonModel> {
        match self {
            JsonModel::Object(m) => if m.dom().contains(key) {
                Some(m[key])
            } else {
                None
            },
            _ => None,
        }
    }

    /// What indexing by `key` reads: the member, or null where there is none.
    pub open spec fn at(self, key: Seq<char>) -> JsonModel {
        match self.member(key) {
            Some(m) => m,
            None => JsonModel::Null,
        }
    }

    /// The text of a string value.
    pub open spec fn text(self) -> Option<Seq<char>> {
        match self {
            JsonModel::String(s) => Some(s),
            _ => None,
        }
    }

    /// The truth value of a boolean.
    pub open spec fn truth(self) -> Option<bool> {
        match self {
            JsonModel::Bool(b) => Some(b),
            _ => None,
        }
    }

    /// The number, if it is an integer that fits in `u64`.
    pub open spec fn unsigned(self) -> Option<u64> {
        match self {
            JsonModel::Int(n) => if 0 <= n <= u64::MAX {
                Some(n as u64)
            } else {
                None
            },
            _ => None,
        }
    }

    /// The object obtained by storing `value` under `key`. Null counts as the
    /// empty object.
    pub open spec fn with(self, key: Seq<char>, value: JsonModel) -> JsonModel {
        match self {
            JsonModel::Object(m) => JsonModel::Object(m.insert(key, value)),
            _ => JsonModel::Object(Map::empty().insert(key, value)),
        }
    }

    pub open spec fn empty_object() -> JsonModel {
        JsonModel::Object(Map::empty())
    }
}

/// The content of a `serde_json::Value`.
pub uninterp spec fn json_model(v: serde_json::Value) -> JsonModel;

/// What `serde_json::from_str` makes of a text: the content of the value it
/// returns, or `None` where it reports an error.
pub uninterp spec fn json_parse(text: Seq<char>) -> Option<JsonModel>;

/// The compact text that `serde_json` writes for a value with this content.
pub uninterp spec fn json_render(m: JsonModel) -> Seq<char>;

/// `Value::is_null`: true exactly for the null value.
pub assume_specification[ serde_json::Value::is_null ](v: &serde_json::Value) -> (r: bool)
    ensures
        r == (json_model(*v) is Null),
;

/// `Value::as_str`: the text of a string value, `None` for every other value.
pub assume_specification<'a>[ serde_json::Value::as_str ](v: &'a serde_json::Value) -> (r: Option<
    &'a str,
>)
    ensures
        match r {
            Some(s) => json_model(*v).text() == Some(s@),
            None => json_model(*v).text() is None,
        },
;

/// `Value::as_u64`: the number where the value is a non-negative integer
/// stored as `u64`, `None` for negative integers, floats and all non-numbers.
pub assume_specification[ serde_json::Value::as_u64 ](v: &serde_json::Value) -> (r: Option<u64>)
    ensures
        r == json_model(*v).unsigned(),
;

/// `Value::clone`: a copy that no observation tells from the value copied.
pub assume_specification[ <serde_json::Value as Clone>::clone ](v: &serde_json::Value) -> (r:
    serde_json::Value)
    ensures
        r == *v,
;

/// `serde_json::from_str::<Value>`: parses a JSON text. The result is a
/// function of the text alone, named by [`json_parse`].
#[verifier::external_body]
pub(crate) fn parse_json(text: &str) -> (r: Result<serde_json::Value, serde_json::Error>)
    ensures
        match r {
            Ok(v) => json_parse(text@) == Some(json_model(v)),
            Err(_) => json_parse(text@) is None,
        },
{
    serde_json::from_str::<serde_json::Value>(text)
}

/// `Value`'s `Display` (through `to_string`): the compact JSON text of the
/// value, a function of its content alone, named by [`json_render`].
#[verifier::external_body]
pub(crate) fn render_json(v: &serde_json::Value) -> (r: String)
    ensures
        r@ == json_render(json_model(*v)),
{
    v.to_string()
}

/// `Value::get` with a string key: the member of an object under that key;
/// `None` where the value is no object or has no such key.
#[verifier::external_body]
pub(crate) fn json_member<'a>(v: &'a serde_json::Value, key: &str) -> (r: Option<
    &'a serde_json::Value,
>)
    ensures
        match r {
            Some(m) => json_model(*v).member(key@) == Some(json_model(*m)),
            None => json_model(*v).member(key@) is None,
        },
{
    v.get(key)
}

/// `Value::Null`.
#[verifier::external_body]
pub(crate) fn json_null() -> (r: serde_json::Value)
    ensures
        json_model(r) == JsonModel::Null,
{
    serde_json::Value::Null
}

/// `Value::Bool`.
#[verifier::external_body]
pub(crate) fn json_bool(b: bool) -> (r: serde_json::Value)
    ensures
        json_model(r) == JsonModel::Bool(b),
{
    serde_json::Value::Bool(b)
}

/// `Value::from(u64)`: the number with that value.
#[verifier::external_body]
pub(crate) fn json_u64(n: u64) -> (r: serde_json::Value)
    ensures
        json_model(r) == JsonModel::Int(n as int),
{
    serde_json::Value::from(n)
}

/// `Value::String`.
#[verifier::external_body]
pub(crate) fn json_string(s: String) -> (r: serde_json::Value)
    ensures
        json_model(r) == JsonModel::String(s@),
{
    serde_json::Value::String(s)
}

/// `Value::Array`: the array of the given items, in their order.
#[verifier::external_body]
pub(crate) fn json_array(items: Vec<serde_json::Value>) -> (r: serde_json::Value)
    ensures
        json_model(r) == JsonModel::Array(items@.map_values(|v: serde_json::Value| json_model(v))),
{
    serde_json::Value::Array(items)
}

/// `Value::Object` of `Map::new()`: the object without members.
#[verifier::external_body]
pub(crate) fn json_object() -> (r: serde_json::Value)
    ensures
        json_model(r) == JsonModel::empty_object(),
{
    serde_json::Value::Object(serde_json::Map::new())
}

/// Assignment through `Value`'s `IndexMut` with a string key: stores `value`
/// under `key` in an object, replacing what was there; a null value becomes
/// an object first. On any other value `serde_json` panics, so those are
/// excluded.
#[verifier::external_body]
pub(crate) fn json_set(obj: &mut serde_json::Value, key: &str, value: serde_json::Value)
    requires
        json_model(*old(obj)) is Object || json_model(*old(obj)) is Null,
    ensures
        json_model(*final(obj)) == json_model(*old(obj)).with(key@, json_model(value)),
{
    obj[key] = value;
}

/// Reads a string member: `v[key].as_str()`.
pub fn json_str_at<'a>(v: &'a serde_json::Value, key: &str) -> (r: Option<&'a str>)
    ensures
        match r {
            Some(s) => json_model(*v).at(key@).text() == Some(s@),
            None => json_model(*v).at(key@).text() is None,
        },
{
    match json_member(v, key) {
        Some(m) => m.as_str(),
        None => None,
    }
}

/// Reads an unsigned integer member: `v[key].as_u64()`.
pub fn json_u64_at(v: &serde_json::Value, key: &str) -> (r: Option<u64>)
    ensures
        r == json_model(*v).at(key@).unsigned(),
{
    match json_member(v, key) {
        Some(m) => m.as_u64(),
        None => None,
    }
}

/// The key under which an object's first member stands, in the order in
/// which `serde_json` walks the object; `None` for an object without members
/// and for every value that is no object.
pub uninterp spec fn json_first_key(m: JsonModel) -> Option<Seq<char>>;

/// `Value::as_object` and, on the map, `Map::iter` with `next`: the first
/// member of an object with its key, `None` where the value is no object
/// or has no members. Which member comes first is named by
/// [`json_first_key`]; it is a member of the object.
#[verifier::external_body]
pub(crate) fn json_first_member<'a>(v: &'a serde_json::Value) -> (r: Option<
    (&'a String, &'a serde_json::Value),
>)
    ensures
        match r {
            Some((key, member)) => json_first_key(json_model(*v)) == Some(key@) && json_model(
                *v,
            ).member(key@) == Some(json_model(*member)),
            None => json_first_key(json_model(*v)) is None,
        },
{
    v.as_object().and_then(|object| object.iter().next())
}

/// `Value::is_object`: true exactly for objects.
pub assume_specification[ serde_json::Value::is_object ](v: &serde_json::Value) -> (r: bool)
    ensures
        r == (json_model(*v) is Object),
;

/// `Value::as_bool`: the truth value of a boolean, `None` for every other
/// value.
pub assume_specification[ serde_json::Value::as_bool ](v: &serde_json::Value) -> (r: Option<bool>)
    ensures
        r == json_model(*v).truth(),
;

} // verus!
