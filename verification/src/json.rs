//! The calls into serde_json (and the few std I/O values) that the library makes.
//!
//! Everything here is trusted: Verus believes these contracts without reading the bodies.
use vstd::prelude::*;

verus! {

/// serde_json's dynamically typed JSON value, carried through opaquely.
#[verifier::external_type_specification]
#[verifier::external_body]
pub struct ExJsonValue(serde_json::Value);

/// serde_json's error type, carried through opaquely.
#[verifier::external_type_specification]
#[verifier::external_body]
pub struct ExJsonError(serde_json::Error);

/// serde_json's map of a JSON object, carried through opaquely.
#[verifier::external_type_specification]
#[verifier::external_body]
#[verifier::reject_recursive_types(K)]
#[verifier::reject_recursive_types(V)]
pub struct ExJsonMap<K, V>(serde_json::Map<K, V>);

/// std's I/O error, carried through opaquely.
#[verifier::external_type_specification]
#[verifier::external_body]
pub struct ExIoError(std::io::Error);

/// Whether `serde_json::from_reader::<_, serde_json::Value>` accepts the bytes.
pub uninterp spec fn json_bytes_accepted(bytes: Seq<u8>) -> bool;

/// The value `serde_json::from_reader::<_, serde_json::Value>` reads from bytes it accepts.
pub uninterp spec fn json_value_of_bytes(bytes: Seq<u8>) -> serde_json::Value;

/// The bytes `serde_json::to_vec` writes for a value.
pub uninterp spec fn json_value_text(v: serde_json::Value) -> Seq<u8>;

/// The bytes `serde_json::to_vec` writes for a map (as a JSON object).
pub uninterp spec fn json_map_text(m: serde_json::Map<String, serde_json::Value>) -> Seq<u8>;

/// The map after `Map::insert(key, v)`.
pub uninterp spec fn json_map_inserted(m: serde_json::Map<String, serde_json::Value>, key: Seq<char>, v: serde_json::Value) -> serde_json::Map<String, serde_json::Value>;

/// The JSON string value `Value::String` makes of a text.
pub uninterp spec fn json_string(s: Seq<char>) -> serde_json::Value;

/// The JSON object value `Value::Object` makes of a map.
pub uninterp spec fn json_object(m: serde_json::Map<String, serde_json::Value>) -> serde_json::Value;

/// What `Value::get(key)` finds in a value: the member named `key` of an object (`None` for a
/// value that is not an object, or an object without that member).
pub uninterp spec fn json_member_of(v: serde_json::Value, key: Seq<char>) -> Option<serde_json::Value>;

/// The text `Display` (and so `to_string`) writes for a value: its compact JSON text.
pub uninterp spec fn json_display_text(v: serde_json::Value) -> Seq<char>;

/// `serde_json::from_reader::<_, serde_json::Value>` over a byte slice: parses the bytes as
/// one JSON value. Claimed: it succeeds exactly when the bytes are accepted, and then gives
/// the value read; both are functions of the bytes alone.
#[verifier::external_body]
pub(crate) fn json_value_from_bytes(bytes: &[u8]) -> (r: Result<serde_json::Value, serde_json::Error>)
    ensures
        r is Ok <==> json_bytes_accepted(bytes@),
        r matches Ok(v) ==> v == json_value_of_bytes(bytes@),
{
    serde_json::from_reader::<&[u8], serde_json::Value>(bytes)
}

/// `Value::get` with a string key, the member found copied out. Claimed: the result is the
/// named member of the value under that key, a function of the value and the key alone.
#[verifier::external_body]
pub(crate) fn json_member(v: &serde_json::Value, key: &str) -> (r: Option<serde_json::Value>)
    ensures
        r == json_member_of(*v, key@),
{
    v.get(key).cloned()
}

/// `ToString::to_string` on a `Value`, which goes through its `Display` impl. Claimed: the
/// text is the named display text of the value, a function of the value alone.
#[verifier::external_body]
pub(crate) fn json_value_display(v: &serde_json::Value) -> (r: String)
    ensures
        r@ == json_display_text(*v),
{
    v.to_string()
}

/// `serde_json::to_vec` on a `Value`. Claimed: it succeeds (the `Serialize` impl of `Value`
/// never fails and writing into a `Vec` cannot fail), giving the value's JSON text, a function
/// of the value alone.
#[verifier::external_body]
pub(crate) fn json_value_to_bytes(v: &serde_json::Value) -> (r: Result<Vec<u8>, serde_json::Error>)
    ensures
        r is Ok,
        r matches Ok(b) ==> b@ == json_value_text(*v),
{
    serde_json::to_vec(v)
}

/// `Map::clone`: a copy of the map. Claimed: the copy is the same map.
#[verifier::external_body]
pub(crate) fn json_map_clone(m: &serde_json::Map<String, serde_json::Value>) -> (r: serde_json::Map<String, serde_json::Value>)
    ensures
        r == *m,
{
    m.clone()
}

/// `Map::insert`: sets the member `key` of the map to `value`. Claimed: the map becomes the
/// named result of that insertion, a function of the map, the key and the value.
#[verifier::external_body]
pub(crate) fn json_map_insert(m: &mut serde_json::Map<String, serde_json::Value>, key: String, value: serde_json::Value)
    ensures
        *final(m) == json_map_inserted(*old(m), key@, value),
{
    m.insert(key, value);
}

/// `Value::String`: the JSON string value holding `s`. Claimed: it is the named string value
/// of the text.
#[verifier::external_body]
pub(crate) fn json_string_value(s: String) -> (r: serde_json::Value)
    ensures
        r == json_string(s@),
{
    serde_json::Value::String(s)
}

/// `serde_json::to_vec` on a map. Claimed: it succeeds (a map with string keys of `Value`s
/// always serialises, and writing into a `Vec` cannot fail), giving the object's JSON text, a
/// function of the map alone (its keys are kept sorted).
#[verifier::external_body]
pub(crate) fn json_map_to_bytes(m: &serde_json::Map<String, serde_json::Value>) -> (r: Result<Vec<u8>, serde_json::Error>)
    ensures
        r is Ok,
        r matches Ok(b) ==> b@ == json_map_text(*m),
{
    serde_json::to_vec(m)
}

/// `Value::Object(map.clone())`: the object value holding a copy of the map. Claimed: it is
/// the named object value of the map.
#[verifier::external_body]
pub(crate) fn json_object_value(m: &serde_json::Map<String, serde_json::Value>) -> (r: serde_json::Value)
    ensures
        r == json_object(*m),
{
    serde_json::Value::Object(m.clone())
}

/// `std::io::Error::new(ErrorKind::InvalidInput, ..)`: the error a seek before the start of
/// a file gives. Nothing is stated of it.
#[verifier::external_body]
pub(crate) fn invalid_seek_error() -> std::io::Error {
    std::io::Error::new(
        std::io::ErrorKind::InvalidInput,
        "invalid seek to a negative or overflowing position",
    )
}

/// `ToString::to_string` on an I/O error. Nothing is stated of the text.
#[verifier::external_body]
pub(crate) fn io_error_text(e: &std::io::Error) -> String {
    e.to_string()
}

/// `ToString::to_string` on a serde_json error. Nothing is stated of the text.
#[verifier::external_body]
pub(crate) fn json_error_text(e: &serde_json::Error) -> String {
    e.to_string()
}

} // verus!
