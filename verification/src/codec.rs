//! Trusted bindings to the byte- and JSON-decoding crates.
//!
//! Each outside call is wrapped in one `external_body` function whose
//! contract names the result; the verified logic is stated and proved over
//! those names.

use vstd::prelude::*;

verus! {

/// What base64url decoding (no padding) yields on a character sequence:
/// the decoded bytes, or `None` when the input is not valid base64url.
pub uninterp spec fn base64url_decoded(s: Seq<char>) -> Option<Seq<u8>>;

/// Relies on the `base64` crate's `URL_SAFE_NO_PAD` engine: the decoding is
/// a function of the input characters alone, and rejection is total (an
/// invalid input never yields bytes).
#[verifier::external_body]
pub fn base64url_decode(s: &str) -> (r: Option<Vec<u8>>)
    ensures
        match r {
            Option::Some(v) => base64url_decoded(s@) == Option::Some(v@),
            Option::None => base64url_decoded(s@) is None,
        },
{
    base64::Engine::decode(&base64::engine::general_purpose::URL_SAFE_NO_PAD, s).ok()
}

/// What reading one string-valued field out of a JSON document yields:
/// `None` when the bytes are not valid JSON, `Some(None)` when the document
/// has no string value at `key`, and `Some(Some(text))` otherwise.
pub uninterp spec fn json_str_field_of(body: Seq<u8>, key: Seq<char>) -> Option<Option<Seq<char>>>;

/// Relies on `serde_json::from_slice`, `Value::get` and `Value::as_str`:
/// parse the bytes as JSON (tolerating arbitrary other fields) and read the
/// one requested field defensively. The outcome is a function of the bytes
/// and the key alone.
#[verifier::external_body]
pub fn json_str_field(body: &[u8], key: &str) -> (r: Option<Option<String>>)
    ensures
        match r {
            Option::None => json_str_field_of(body@, key@) is None,
            Option::Some(Option::None) => json_str_field_of(body@, key@) == Option::Some(
                Option::<Seq<char>>::None,
            ),
            Option::Some(Option::Some(s)) => json_str_field_of(body@, key@) == Option::Some(
                Option::Some(s@),
            ),
        },
{
    let value: serde_json::Value = match serde_json::from_slice(body) {
        Ok(v) => v,
        Err(_) => {
            return None;
        },
    };
    Some(value.get(key).and_then(|f| f.as_str()).map(|s| s.to_string()))
}

} // verus!
