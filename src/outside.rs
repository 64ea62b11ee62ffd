//! Calls into outside code that the decoders rely on: JSON, base64, regular
//! expressions and a few of std's string functions. Each result that takes
//! more than a few lines to state is given a name.

use vstd::prelude::*;

verus! {

/// The JSON text of the field `key` of the object that `doc` encodes.
pub uninterp spec fn json_field_of(doc: Seq<u8>, key: Seq<char>) -> Option<Seq<u8>>;

/// The JSON texts of the elements of the array that `doc` encodes.
pub uninterp spec fn json_elements_of(doc: Seq<u8>) -> Option<Seq<Seq<u8>>>;

/// The contents of the JSON string, or the text of the JSON number, that
/// `doc` encodes.
pub uninterp spec fn json_text_of(doc: Seq<u8>) -> Option<Seq<char>>;

/// The bytes that base64 `text` encodes.
pub uninterp spec fn base64_decoded(text: Seq<char>) -> Option<Seq<u8>>;

/// The groups that the first match of `pattern` in `text` captures, group 0
/// first.
pub uninterp spec fn regex_captures_of(pattern: Seq<char>, text: Seq<char>) -> Option<
    Seq<Option<Seq<char>>>,
>;

/// `s` without leading and trailing white space.
pub uninterp spec fn trimmed(s: Seq<char>) -> Seq<char>;

/// `s` with each character written as a Rust escape where it needs one.
pub uninterp spec fn escaped(s: Seq<char>) -> Seq<char>;

pub open spec fn bytes_views(s: Seq<Vec<u8>>) -> Seq<Seq<u8>> {
    s.map_values(|b: Vec<u8>| b@)
}

pub open spec fn text_views(s: Seq<Option<String>>) -> Seq<Option<Seq<char>>> {
    s.map_values(|o: Option<String>| opt_view(o))
}

pub open spec fn opt_view(o: Option<String>) -> Option<Seq<char>> {
    match o {
        Some(s) => Some(s@),
        None => None,
    }
}

/// Relies on `serde_json::from_slice` into a `serde_json::Value` and
/// `Value::get`: the field of an object, encoded again by
/// `serde_json::to_vec`.
#[verifier::external_body]
pub(crate) fn json_field(doc: &[u8], key: &str) -> (r: Option<Vec<u8>>)
    ensures
        r is None <==> json_field_of(doc@, key@) is None,
        r matches Some(v) ==> json_field_of(doc@, key@) == Some(v@),
{
    let value: serde_json::Value = serde_json::from_slice(doc).ok()?;
    match value.get(key) {
        Some(field) => serde_json::to_vec(field).ok(),
        None => None,
    }
}

/// Relies on `serde_json::from_slice` into a `serde_json::Value`: the elements
/// of an array, each encoded again by `serde_json::to_vec`.
#[verifier::external_body]
pub(crate) fn json_elements(doc: &[u8]) -> (r: Option<Vec<Vec<u8>>>)
    ensures
        r is None <==> json_elements_of(doc@) is None,
        r matches Some(v) ==> json_elements_of(doc@) == Some(bytes_views(v@)),
{
    match serde_json::from_slice::<serde_json::Value>(doc).ok()? {
        serde_json::Value::Array(items) => {
            let mut out = Vec::new();
            for item in items.iter() {
                out.push(serde_json::to_vec(item).ok()?);
            }
            Some(out)
        },
        _ => None,
    }
}

/// Relies on `serde_json::from_slice` into a `serde_json::Value`: the
/// contents of a string, or the text of a number.
#[verifier::external_body]
pub(crate) fn json_text(doc: &[u8]) -> (r: Option<String>)
    ensures
        r is None <==> json_text_of(doc@) is None,
        r matches Some(s) ==> json_text_of(doc@) == Some(s@),
{
    match serde_json::from_slice::<serde_json::Value>(doc).ok()? {
        serde_json::Value::String(s) => Some(s),
        serde_json::Value::Number(n) => Some(n.to_string()),
        _ => None,
    }
}

/// Relies on `base64::decode` (standard alphabet): the decoded bytes, or
/// `None` on malformed input.
#[verifier::external_body]
pub(crate) fn decode_base64(text: &str) -> (r: Option<Vec<u8>>)
    ensures
        r is None <==> base64_decoded(text@) is None,
        r matches Some(v) ==> base64_decoded(text@) == Some(v@),
{
    base64::decode(text).ok()
}

/// Relies on `regex::Regex::new` and `Regex::captures`: the groups of the
/// first match, `None` when nothing matches or the pattern is not valid.
#[verifier::external_body]
pub(crate) fn regex_captures(pattern: &str, text: &str) -> (r: Option<Vec<Option<String>>>)
    ensures
        r is None <==> regex_captures_of(pattern@, text@) is None,
        r matches Some(v) ==> regex_captures_of(pattern@, text@) == Some(text_views(v@)),
{
    let re = regex::Regex::new(pattern).ok()?;
    let caps = re.captures(text)?;
    Some(caps.iter().map(|m| m.map(|m| m.as_str().to_string())).collect())
}

/// Relies on `str::trim`.
#[verifier::external_body]
pub(crate) fn trim_text(s: &str) -> (r: &str)
    ensures
        r@ == trimmed(s@),
{
    s.trim()
}

/// Relies on `str::strip_prefix`: the rest of `s` when it starts with `prefix`.
#[verifier::external_body]
pub(crate) fn strip_prefix<'a>(s: &'a str, prefix: &str) -> (r: Option<&'a str>)
    ensures
        r is Some <==> (prefix@.len() <= s@.len() && s@.subrange(0, prefix@.len() as int)
            == prefix@),
        r matches Some(t) ==> t@ == s@.subrange(prefix@.len() as int, s@.len() as int),
{
    s.strip_prefix(prefix)
}

/// Relies on `str::escape_default`.
#[verifier::external_body]
pub(crate) fn escape_text(s: &str) -> (r: String)
    ensures
        r@ == escaped(s@),
{
    s.escape_default().to_string()
}

} // verus!
