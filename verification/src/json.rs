//! The JSON texts the tools produce, rendered by serde_json.

use vstd::prelude::*;

verus! {

/// The bytes that serde_json's `to_vec_pretty` gives for the JSON object with
/// the one member `key` whose value is the string `text` (`None` when it
/// reports an error).
pub uninterp spec fn pretty_json_text_member(key: Seq<char>, text: Seq<char>) -> Option<Seq<u8>>;

/// The view of optional bytes.
pub open spec fn opt_bytes_view(b: Option<Vec<u8>>) -> Option<Seq<u8>> {
    match b {
        Some(v) => Some(v@),
        None => None,
    }
}

/// Pretty JSON of the object `{ key: text }`, through `serde_json::to_vec_pretty`.
/// Its contract names the bytes and says nothing else of them.
#[verifier::external_body]
pub(crate) fn render_text_member(key: &str, text: &str) -> (out: Option<Vec<u8>>)
    ensures
        opt_bytes_view(out) == pretty_json_text_member(key@, text@),
{
    let member: serde_json::Map<String, serde_json::Value> =
        std::iter::once((key.to_owned(), serde_json::Value::from(text))).collect();
    serde_json::to_vec_pretty(&serde_json::Value::Object(member)).ok()
}

/// The text that serde_json's `to_string_pretty` gives for the JSON array
/// that holds, for each row, the object with the members `keys.0` to
/// `keys.4`: the first three the row's strings, the last two its numbers
/// (`None` when it reports an error).
pub uninterp spec fn pretty_json_rows(
    keys: (Seq<char>, Seq<char>, Seq<char>, Seq<char>, Seq<char>),
    rows: Seq<(Seq<char>, Seq<char>, Seq<char>, u64, u64)>,
) -> Option<Seq<char>>;

/// The view of an optional string.
pub open spec fn opt_text_view(t: Option<String>) -> Option<Seq<char>> {
    match t {
        Some(s) => Some(s@),
        None => None,
    }
}

/// The view of a list of rows.
pub open spec fn rows_view(rows: Seq<(String, String, String, u64, u64)>) -> Seq<(Seq<char>, Seq<char>, Seq<char>, u64, u64)> {
    rows.map_values(|r: (String, String, String, u64, u64)| (r.0@, r.1@, r.2@, r.3, r.4))
}

/// Pretty JSON of an array of objects, one per row, through
/// `serde_json::to_string_pretty`. Its contract names the text; beside that it
/// states the one fact the serializer's source shows plainly: an empty array
/// is written `[]`.
#[verifier::external_body]
pub(crate) fn render_rows(keys: (&str, &str, &str, &str, &str), rows: Vec<(String, String, String, u64, u64)>) -> (out: Option<String>)
    ensures
        opt_text_view(out) == pretty_json_rows((keys.0@, keys.1@, keys.2@, keys.3@, keys.4@), rows_view(rows@)),
        rows@.len() == 0 ==> opt_text_view(out) == Some("[]"@),
{
    let objects: Vec<serde_json::Value> = rows.into_iter().map(|(a, b, c, d, e)| serde_json::Value::Object(
        [(keys.0, serde_json::Value::from(a)), (keys.1, serde_json::Value::from(b)),
            (keys.2, serde_json::Value::from(c)), (keys.3, serde_json::Value::from(d)),
            (keys.4, serde_json::Value::from(e))].into_iter().map(|(k, v)| (k.to_owned(), v)).collect(),
    )).collect();
    serde_json::to_string_pretty(&objects).ok()
}

} // verus!
