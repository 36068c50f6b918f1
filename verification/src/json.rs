//! JSON documents, as their texts.
use vstd::prelude::*;

verus! {

/// The pretty-printed form of a JSON text, or the parser's message.
pub uninterp spec fn pretty_json_of(text: Seq<char>) -> Result<Seq<u8>, Seq<char>>;

/// Whether the bytes and the text hold the same value, where both are JSON.
pub uninterp spec fn json_equality(bytes: Seq<u8>, text: Seq<char>) -> Option<bool>;

/// Whether both are JSON and hold the same value.
pub open spec fn same_json(bytes: Seq<u8>, text: Seq<char>) -> bool {
    json_equality(bytes, text) == Some(true)
}

/// `serde_json::to_vec_pretty` of the value that `serde_json::from_str` reads:
/// the bytes or the message are a function of the text alone.
#[verifier::external_body]
pub(crate) fn pretty_json(text: &str) -> (r: Result<Vec<u8>, String>)
    ensures
        match r {
            Ok(bytes) => pretty_json_of(text@) == Ok::<Seq<u8>, Seq<char>>(bytes@),
            Err(m) => pretty_json_of(text@) == Err::<Seq<u8>, Seq<char>>(m@),
        },
{
    serde_json::from_str::<serde_json::Value>(text).and_then(
        |value| serde_json::to_vec_pretty(&value),
    ).map_err(|error| error.to_string())
}

/// `serde_json::from_slice` and `serde_json::from_str`, the two values compared
/// with the crate's own equality; nothing where one of the two is no JSON. The
/// result is a function of the bytes and the text alone.
#[verifier::external_body]
fn compare_json(bytes: &Vec<u8>, text: &str) -> (r: Option<bool>)
    ensures
        r == json_equality(bytes@, text@),
{
    let current = serde_json::from_slice::<serde_json::Value>(bytes);
    let expected = serde_json::from_str::<serde_json::Value>(text);
    match (current, expected) {
        (Ok(a), Ok(b)) => Some(a == b),
        (Err(_), _) | (_, Err(_)) => None,
    }
}

/// Whether bytes and text hold the same value. What is no JSON equals nothing.
pub fn is_same_json(bytes: &Vec<u8>, text: &str) -> (r: bool)
    ensures
        r == same_json(bytes@, text@),
{
    match compare_json(bytes, text) {
        Some(same) => same,
        None => false,
    }
}

} // verus!
