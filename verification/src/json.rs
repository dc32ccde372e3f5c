//! JSON values: their mathematical model, and what the library takes from
//! `serde_json`.
//!
//! Verus sees nothing inside a `serde_json::Value`. The model of one is a
//! [`Json`], given by [`json_of`]; the items at the end of this file say over
//! that model what each `serde_json` function does. Nothing here is proved of
//! `serde_json`: these statements are what the rest of the library rests on.
use serde_json::Value;
use vstd::prelude::*;

verus! {

/// What a JSON value is.
pub enum Json {
    Null,
    Bool(bool),
    Number(JsonNumber),
    Text(Seq<char>),
    Array(Seq<Json>),
    Object(Map<Seq<char>, Json>),
}

/// What a JSON number is: an integer that fits 64 bits, or a finite binary64
/// float, held as its bit pattern.
pub enum JsonNumber {
    Natural(u64),
    Negative(i64),
    Float(u64),
}

impl Json {
    /// The entry of an object under `key`, and null where there is none.
    pub open spec fn field(self, key: Seq<char>) -> Json {
        match self {
            Json::Object(entries) => if entries.dom().contains(key) {
                entries[key]
            } else {
                Json::Null
            },
            _ => Json::Null,
        }
    }

    /// The value as a natural number, where it is one.
    pub open spec fn natural(self) -> Option<u64> {
        match self {
            Json::Number(JsonNumber::Natural(n)) => Some(n),
            _ => None,
        }
    }

    /// The value as a float, where it is a number.
    pub open spec fn float(self) -> Option<Json> {
        match self {
            Json::Number(JsonNumber::Float(_)) => Some(self),
            Json::Number(integer) => Some(Json::Number(JsonNumber::Float(float_bits(integer)))),
            _ => None,
        }
    }
}

/// The content of an object without entries.
pub open spec fn no_entries() -> Map<Seq<char>, Json> {
    Map::empty()
}

/// Whether a text reads as `json`.
pub open spec fn reads_as(text: Seq<char>, json: Json) -> bool {
    json_parse(text) == Result::<Json, Seq<char>>::Ok(json)
}

/// Whether a text fails to read, with `words` as the error.
pub open spec fn fails_with(text: Seq<char>, words: Seq<char>) -> bool {
    json_parse(text) == Result::<Json, Seq<char>>::Err(words)
}

/// Whether `json` is a float that is not negative and at most 2 to the power 64.
pub open spec fn is_seconds(json: Json) -> bool {
    json matches Json::Number(JsonNumber::Float(bits)) && bits <= 0x43F0_0000_0000_0000
}

/// The float zero, whose bits are all zero.
pub open spec fn float_zero() -> Json {
    Json::Number(JsonNumber::Float(0))
}

/// Whether `json` is a float.
pub open spec fn is_float(json: Json) -> bool {
    json matches Json::Number(JsonNumber::Float(_))
}

/// The models of a sequence of values.
pub open spec fn jsons_of(values: Seq<Value>) -> Seq<Json> {
    values.map_values(|value: Value| json_of(value))
}

/// Whether a float, given by its bits, is smaller than 2 to the power 1000 in
/// magnitude.
pub open spec fn moderate(bits: u64) -> bool {
    bits % 0x8000_0000_0000_0000 < 0x7E70_0000_0000_0000
}

/// Whether a float, given by its bits, is a whole number smaller than 2 to the
/// power 49 in magnitude: it is zero, or it is at least one and its bits behind the
/// binary point, which the shift leaves, are all zero.
pub open spec fn whole(bits: u64) -> bool {
    let magnitude = bits % 0x8000_0000_0000_0000;
    let exponent = magnitude / 0x10_0000_0000_0000;
    ||| magnitude == 0
    ||| 1023 <= exponent < 1023 + 49 && magnitude << ((exponent - 1023 + 12) as u64) == 0
}

/// How many levels of arrays and objects `serde_json` reads.
pub open spec fn depth_limit() -> nat {
    127
}

/// Whether `json` nests at most `depth` arrays and objects, and all its floats
/// are of moderate magnitude.
pub open spec fn in_range(json: Json, depth: nat) -> bool
    decreases depth,
{
    match json {
        Json::Number(JsonNumber::Float(bits)) => moderate(bits),
        Json::Array(items) => depth > 0 && forall|i: int|
            0 <= i < items.len() ==> in_range(#[trigger] items[i], (depth - 1) as nat),
        Json::Object(entries) => depth > 0 && forall|key: Seq<char>|
            entries.dom().contains(key) ==> in_range(#[trigger] entries[key], (depth - 1) as nat),
        _ => true,
    }
}

/// Whether the text of `json`, read again within `depth` levels, gives `again`:
/// the same value, but that each float in it is what its own text reads as. A float
/// that is a whole number, and not too large, reads as itself.
pub open spec fn rereads(json: Json, again: Json, depth: nat) -> bool
    decreases depth,
{
    match json {
        Json::Number(JsonNumber::Float(bits)) => {
            &&& is_float(again)
            &&& reads_as(json_text(json), again)
            &&& whole(bits) ==> again == json
        },
        Json::Array(items) => {
            &&& depth > 0
            &&& again matches Json::Array(others)
            &&& items.len() == others.len()
            &&& forall|i: int|
                0 <= i < items.len() ==> rereads(
                    #[trigger] items[i],
                    others[i],
                    (depth - 1) as nat,
                )
        },
        Json::Object(entries) => {
            &&& depth > 0
            &&& again matches Json::Object(others)
            &&& entries.dom() == others.dom()
            &&& forall|key: Seq<char>|
                entries.dom().contains(key) ==> rereads(
                    #[trigger] entries[key],
                    others[key],
                    (depth - 1) as nat,
                )
        },
        _ => json == again,
    }
}

/// Whether `text` is the compact text of `json`: it reads as `json` again, up to
/// floats, or not at all where `json` nests too deep or holds too large a float.
pub open spec fn is_text_of(text: Seq<char>, json: Json) -> bool {
    &&& text == json_text(json)
    &&& forall|again: Json| #[trigger]
        rereads(json, again, depth_limit()) <==> reads_as(text, again)
}

/// Whether `json` nests at most `depth` arrays and objects, and holds no float.
pub open spec fn float_free(json: Json, depth: nat) -> bool
    decreases depth,
{
    match json {
        Json::Number(JsonNumber::Float(_)) => false,
        Json::Array(items) => depth > 0 && forall|i: int|
            0 <= i < items.len() ==> float_free(#[trigger] items[i], (depth - 1) as nat),
        Json::Object(entries) => depth > 0 && forall|key: Seq<char>|
            entries.dom().contains(key) ==> float_free(#[trigger] entries[key], (depth - 1) as nat),
        _ => true,
    }
}

/// Whether `json` nests at most `depth` arrays and objects, and every float in it
/// is a whole number that is not too large.
pub open spec fn whole_floats(json: Json, depth: nat) -> bool
    decreases depth,
{
    match json {
        Json::Number(JsonNumber::Float(bits)) => whole(bits),
        Json::Array(items) => depth > 0 && forall|i: int|
            0 <= i < items.len() ==> whole_floats(#[trigger] items[i], (depth - 1) as nat),
        Json::Object(entries) => depth > 0 && forall|key: Seq<char>|
            entries.dom().contains(key) ==> whole_floats(
                #[trigger] entries[key],
                (depth - 1) as nat,
            ),
        _ => true,
    }
}

// ---- what serde_json holds and does -----------------------------------------

/// `serde_json::Value`, opaque here.
#[verifier::external_type_specification]
#[verifier::external_body]
pub struct ExValue(serde_json::Value);

/// `serde_json::Map`, opaque here.
#[verifier::external_type_specification]
#[verifier::external_body]
#[verifier::reject_recursive_types(K)]
#[verifier::reject_recursive_types(V)]
pub struct ExObject<K, V>(serde_json::Map<K, V>);

/// `serde_json::Error`, opaque here.
#[verifier::external_type_specification]
#[verifier::external_body]
pub struct ExJsonError(serde_json::Error);

/// What a `serde_json::Value` holds.
pub uninterp spec fn json_of(value: Value) -> Json;

/// What a `serde_json::Map` holds.
pub uninterp spec fn object_of(object: serde_json::Map<String, Value>) -> Map<Seq<char>, Json>;

/// Whether a `serde_json::Error` comes from reading or writing a stream, as its
/// `is_io` tells.
pub uninterp spec fn json_error_is_io(error: serde_json::Error) -> bool;

/// What a `serde_json::Error` says of itself, where it does not come from reading or
/// writing a stream.
pub uninterp spec fn json_error_text(error: serde_json::Error) -> Seq<char>;

/// The compact text of a JSON value, as `serde_json::to_string` writes it.
pub uninterp spec fn json_text(json: Json) -> Seq<char>;

/// What `serde_json::from_str` reads in a text: a value, or the words of the
/// error.
pub uninterp spec fn json_parse(text: Seq<char>) -> Result<Json, Seq<char>>;

/// The bits of the float that `serde_json::Value::as_f64` gives of an integer.
pub uninterp spec fn float_bits(integer: JsonNumber) -> u64;

/// The bits of the float that `Duration::as_secs_f64` gives of a length of time.
pub uninterp spec fn seconds_bits(length: std::time::Duration) -> u64;

/// The clone of a `serde_json::Value` holds what the value holds.
pub assume_specification[ <Value as Clone>::clone ](value: &Value) -> (copy: Value)
    ensures
        json_of(copy) == json_of(*value),
;

/// The clone of a `serde_json::Map` holds what the map holds.
pub assume_specification[ <serde_json::Map<String, Value> as Clone>::clone ](
    object: &serde_json::Map<String, Value>,
) -> (copy: serde_json::Map<String, Value>)
    ensures
        object_of(copy) == object_of(*object),
;

/// `serde_json::Map::new` makes a map without entries.
pub assume_specification[ serde_json::Map::<String, Value>::new ]() -> (object: serde_json::Map<
    String,
    Value,
>)
    ensures
        object_of(object) == no_entries(),
;

/// `serde_json::Map::insert` sets the entry under a key; the other entries stay.
/// What was under the key before is given back.
pub assume_specification[ serde_json::Map::<String, Value>::insert ](
    object: &mut serde_json::Map<String, Value>,
    k: String,
    v: Value,
) -> (before: Option<Value>)
    ensures
        object_of(*final(object)) == object_of(*old(object)).insert(k@, json_of(v)),
        before is Some <==> object_of(*old(object)).dom().contains(k@),
        before matches Some(value) ==> json_of(value) == object_of(*old(object))[k@],
;

/// `serde_json::Value::as_u64` gives a number that is a natural number, and
/// nothing of any other value.
pub assume_specification[ Value::as_u64 ](value: &Value) -> (number: Option<u64>)
    ensures
        number == json_of(*value).natural(),
;

/// `serde_json::Error::is_io` tells whether the error holds one of input or output.
pub assume_specification[ serde_json::Error::is_io ](error: &serde_json::Error) -> (io: bool)
    ensures
        io == json_error_is_io(*error),
;

/// `serde_json::Value::as_object` gives the map of an object, and nothing of
/// any other value.
pub assume_specification[ Value::as_object ](value: &Value) -> (object: Option<
    &serde_json::Map<String, Value>,
>)
    ensures
        match json_of(*value) {
            Json::Object(entries) => object is Some && object_of(*object->0) == entries,
            _ => object is None,
        },
;

/// `serde_json::Value::as_array` gives the items of an array, and nothing of
/// any other value.
pub assume_specification[ Value::as_array ](value: &Value) -> (array: Option<&Vec<Value>>)
    ensures
        match json_of(*value) {
            Json::Array(items) => array is Some && jsons_of(array->0@) == items,
            _ => array is None,
        },
;

/// `serde_json::Value::as_f64`, with the float it gives held as a JSON value. A
/// number always gives a float, and no other value does. A float gives itself,
/// and zero the float zero; which float another integer gives is left to the name
/// `float_bits`.
#[verifier::external_body]
pub(crate) fn as_float(value: &Value) -> (number: Option<Value>)
    ensures
        number is Some <==> json_of(*value) is Number,
        number is Some && is_float(json_of(*value)) ==> json_of(number->0) == json_of(*value),
        number is Some && !is_float(json_of(*value)) ==> json_of(number->0) == Json::Number(
            JsonNumber::Float(float_bits(json_of(*value)->Number_0)),
        ),
        number is Some && json_of(*value) == Json::Number(JsonNumber::Natural(0)) ==> json_of(
            number->0,
        ) == float_zero(),
{
    value.as_f64().map(Value::from)
}

/// Indexing a `serde_json::Value` by a string: the entry of an object under that
/// key, and null where there is none or the value is no object.
#[verifier::external_body]
pub(crate) fn field<'a>(value: &'a Value, key: &str) -> (entry: &'a Value)
    ensures
        json_of(*entry) == json_of(*value).field(key@),
{
    &value[key]
}

/// `Value::from` on a map: the object with its entries.
#[verifier::external_body]
pub(crate) fn object_value(object: serde_json::Map<String, Value>) -> (value: Value)
    ensures
        json_of(value) == Json::Object(object_of(object)),
{
    Value::from(object)
}

/// `Value::from` on a vector of values: the array of them, in their order.
#[verifier::external_body]
pub(crate) fn array_value(items: Vec<Value>) -> (value: Value)
    ensures
        json_of(value) == Json::Array(jsons_of(items@)),
{
    Value::from(items)
}

/// `Value::from` on an unsigned integer: that number.
#[verifier::external_body]
pub(crate) fn natural_value(n: u64) -> (value: Value)
    ensures
        json_of(value) == Json::Number(JsonNumber::Natural(n)),
{
    Value::from(n)
}

/// `Value::from` on the length in seconds of a `Duration`, which
/// `Duration::as_secs_f64` gives: a float that is not negative and at most 2 to the
/// power 64. Which one it is is left to the name `seconds_bits`.
#[verifier::external_body]
pub(crate) fn seconds_value(length: std::time::Duration) -> (value: Value)
    ensures
        json_of(value) == Json::Number(JsonNumber::Float(seconds_bits(length))),
        is_seconds(json_of(value)),
{
    Value::from(length.as_secs_f64())
}

/// The `Display` text of a `serde_json::Value`, which `to_string` gives: the
/// compact text, as `serde_json::to_string` writes it. It reads as the value
/// again, but that a float comes back as whatever its own text reads as, which is
/// the float itself where [`whole`] holds of it.
#[verifier::external_body]
pub(crate) fn compact_text(value: &Value) -> (text: String)
    ensures
        text@ == json_text(json_of(*value)),
        is_text_of(text@, json_of(*value)),
{
    value.to_string()
}

/// `serde_json::to_string` on a value, which writes its compact text.
///
/// That text holds no control character, because strings are written with theirs
/// escaped. An object's text begins with a brace. Reading the text again gives
/// the value, but that a float comes back as whatever its own text reads as; it
/// fails where arrays and objects nest too deep or a float's text reads as too
/// large a number, which a float of moderate magnitude never does.
///
/// A float that is a whole number smaller than 2 to the power 49 comes back as
/// itself. Its text is its digits, a point and one zero. Such a text is read as the
/// integer without the point, divided by ten: the integer is smaller than 2 to the
/// power 53, so it is a float, and the division is exact.
#[verifier::external_body]
pub(crate) fn write_json(value: &Value) -> (text: Result<String, serde_json::Error>)
    ensures
        text is Ok,
        text->Ok_0@ == json_text(json_of(*value)),
        is_text_of(text->Ok_0@, json_of(*value)),
        forall|i: int| 0 <= i < text->Ok_0@.len() ==> (#[trigger] text->Ok_0@[i]) >= ' ',
        json_of(*value) is Object ==> text->Ok_0@.len() > 0 && text->Ok_0@[0] == '{',
        in_range(json_of(*value), depth_limit()) ==> json_parse(text->Ok_0@) is Ok,
{
    serde_json::to_string(value)
}

/// `serde_json::from_str` into a `serde_json::Value`: the value that a text is
/// written of, or the error that stops the reading. A text in memory is no stream, so
/// the error is none of input or output.
#[verifier::external_body]
pub(crate) fn read_json(text: &str) -> (value: Result<Value, serde_json::Error>)
    ensures
        match value {
            Ok(v) => reads_as(text@, json_of(v)),
            Err(e) => !json_error_is_io(e) && fails_with(text@, json_error_text(e)),
        },
{
    serde_json::from_str(text)
}

/// The `Display` text of a `serde_json::Error`, which `to_string` gives. Nothing is
/// stated of the text of an error of input or output: it is that of the
/// `std::io::Error` inside, which differs from one machine to another.
#[verifier::external_body]
pub(crate) fn error_words(error: &serde_json::Error) -> (text: String)
    ensures
        !json_error_is_io(*error) ==> text@ == json_error_text(*error),
{
    error.to_string()
}

} // verus!
