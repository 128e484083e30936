//! The JSON documents that the resource store keeps, and what this library
//! relies on from serde_json to read, inspect and write them.
use vstd::prelude::*;

verus! {

#[verifier::external_type_specification]
#[verifier::external_body]
pub struct ExJsonValue(serde_json::Value);

#[verifier::external_type_specification]
#[verifier::external_body]
#[verifier::reject_recursive_types(K)]
#[verifier::reject_recursive_types(V)]
pub struct ExJsonMap<K, V>(serde_json::Map<K, V>);

/// A JSON object: its members by name.
pub type JsonObject = serde_json::Map<String, serde_json::Value>;

/// The value that serde_json reads from `text`, if `text` is a JSON document.
pub uninterp spec fn parsed_json(text: Seq<char>) -> Option<serde_json::Value>;

/// The members of `v` when `v` is a JSON object.
pub uninterp spec fn object_of(v: serde_json::Value) -> Option<JsonObject>;

/// The members of an object, by name.
pub uninterp spec fn entries_of(m: JsonObject) -> Map<Seq<char>, serde_json::Value>;

/// The indented text that serde_json writes for an object.
pub uninterp spec fn pretty_json(m: JsonObject) -> Seq<char>;

/// The compact text that serde_json writes for an object.
pub uninterp spec fn compact_json(m: JsonObject) -> Seq<char>;

/// The JSON number `n`.
pub uninterp spec fn json_number(n: u16) -> serde_json::Value;

/// The JSON string `s`.
pub uninterp spec fn json_string(s: Seq<char>) -> serde_json::Value;

/// Relies on `serde_json::from_str::<Value>`: a document is read, or the text is refused.
#[verifier::external_body]
pub(crate) fn parse_json(text: &str) -> (r: Option<serde_json::Value>)
    ensures
        r == parsed_json(text@),
{
    serde_json::from_str::<serde_json::Value>(text).ok()
}

/// Relies on `Value::as_object`: the members of an object, and nothing for any other value.
pub assume_specification[ serde_json::Value::as_object ](v: &serde_json::Value) -> (r: Option<
    &serde_json::Map<String, serde_json::Value>,
>)
    ensures
        r is Some <==> object_of(*v) is Some,
        r matches Some(m) ==> object_of(*v) == Some(*m),
;

/// Takes the members out of an object value (the `Value::Object` variant).
#[verifier::external_body]
pub(crate) fn into_object(v: serde_json::Value) -> (r: Option<JsonObject>)
    ensures
        r == object_of(v),
{
    match v {
        serde_json::Value::Object(m) => Some(m),
        _ => None,
    }
}

/// Relies on `Map::keys`: each member name once.
#[verifier::external_body]
pub(crate) fn object_keys(m: &JsonObject) -> (r: Vec<String>)
    ensures
        forall|i: int| 0 <= i < r@.len() ==> #[trigger] entries_of(*m).contains_key(r@[i]@),
        forall|k: Seq<char>|
            #[trigger] entries_of(*m).contains_key(k) ==> exists|i: int|
                0 <= i < r@.len() && r@[i]@ == k,
{
    m.keys().cloned().collect()
}

/// Relies on `Map::contains_key`.
#[verifier::external_body]
pub(crate) fn has_member(m: &JsonObject, k: &String) -> (r: bool)
    ensures
        r == entries_of(*m).contains_key(k@),
{
    m.contains_key(k.as_str())
}

/// Relies on `Map::get`: a copy of the member named `k`.
#[verifier::external_body]
pub(crate) fn member(m: &JsonObject, k: &String) -> (r: Option<serde_json::Value>)
    ensures
        r is Some <==> entries_of(*m).contains_key(k@),
        r matches Some(v) ==> v == entries_of(*m)[k@],
{
    m.get(k.as_str()).cloned()
}

/// Relies on `Map::insert`: the member named `k` is set to `v`.
#[verifier::external_body]
pub(crate) fn set_member(m: &mut JsonObject, k: String, v: serde_json::Value)
    ensures
        entries_of(*final(m)) == entries_of(*old(m)).insert(k@, v),
{
    m.insert(k, v);
}

/// Relies on `serde_json::to_string_pretty`, which fails only for a
/// `Serialize` impl that fails or a map with non-string keys; neither occurs
/// in a `Map<String, Value>`.
#[verifier::external_body]
pub(crate) fn pretty_text(m: &JsonObject) -> (r: String)
    ensures
        r@ == pretty_json(*m),
{
    serde_json::to_string_pretty(m).expect("a map with string keys always serialises")
}

/// Relies on `serde_json::to_string`, which cannot fail here for the same
/// reason as `to_string_pretty`.
#[verifier::external_body]
pub(crate) fn compact_text(m: &JsonObject) -> (r: String)
    ensures
        r@ == compact_json(*m),
{
    serde_json::to_string(m).expect("a map with string keys always serialises")
}

/// Relies on `Map::new`: an object without members.
#[verifier::external_body]
pub(crate) fn empty_object() -> (r: JsonObject)
    ensures
        entries_of(r).dom().is_empty(),
{
    serde_json::Map::new()
}

/// Relies on `Value::from::<u16>`.
#[verifier::external_body]
pub(crate) fn number_value(n: u16) -> (r: serde_json::Value)
    ensures
        r == json_number(n),
{
    serde_json::Value::from(n)
}

/// Relies on `Value::from::<&str>`.
#[verifier::external_body]
pub(crate) fn string_value(s: &str) -> (r: serde_json::Value)
    ensures
        r == json_string(s@),
{
    serde_json::Value::from(s)
}

/// The members of a status reply body.
pub open spec fn status_members(code: u16, message: Seq<char>) -> Map<
    Seq<char>,
    serde_json::Value,
> {
    Map::<Seq<char>, serde_json::Value>::empty().insert("status_code"@, json_number(code)).insert(
        "message"@,
        json_string(message),
    )
}

/// The object `{"status_code": code, "message": message}` in compact text.
pub fn status_text(code: u16, message: &str) -> (r: String)
    ensures
        exists|m: JsonObject| entries_of(m) == status_members(code, message@) && r@ == #[trigger] compact_json(m),
{
    let mut m = empty_object();
    let ghost none = entries_of(m);
    set_member(&mut m, String::from_str("status_code"), number_value(code));
    set_member(&mut m, String::from_str("message"), string_value(message));
    proof {
        assert(none =~= Map::<Seq<char>, serde_json::Value>::empty());
        assert(entries_of(m) =~= status_members(code, message@));
    }
    compact_text(&m)
}

/// A request body: none, text that is not JSON, or a JSON document.
pub enum RequestBody {
    Absent,
    Malformed,
    Json(serde_json::Value),
}

/// The members of the body when it is a JSON object.
pub open spec fn body_object(b: RequestBody) -> Option<JsonObject> {
    match b {
        RequestBody::Json(v) => object_of(v),
        _ => None,
    }
}

/// Reads a request body: empty text is no body, else what serde_json reads
/// from it, or malformed when it reads nothing.
pub fn request_body(body: &str) -> (r: RequestBody)
    ensures
        body@.len() == 0 ==> r is Absent,
        body@.len() > 0 ==> match parsed_json(body@) {
            None => r is Malformed,
            Some(v) => r == RequestBody::Json(v),
        },
{
    if body.is_empty() {
        RequestBody::Absent
    } else {
        match parse_json(body) {
            None => RequestBody::Malformed,
            Some(v) => RequestBody::Json(v),
        }
    }
}

} // verus!
