use vstd::prelude::*;

verus! {

/// Declares `serde_json::Value`, a parsed JSON document. It is carried through, never read.
#[verifier::external_type_specification]
#[verifier::external_body]
pub struct ExValue(serde_json::Value);

/// Whether `serde_json::from_str` accepts `text` as one JSON document.
pub uninterp spec fn json_accepts(text: Seq<char>) -> bool;

/// The value `serde_json::from_str` builds from `text`, when it accepts it.
pub uninterp spec fn json_value(text: Seq<char>) -> serde_json::Value;

/// Calls `serde_json::from_str` for a `serde_json::Value`, keeping the value and dropping the
/// reason for a failure. Whether it succeeds depends on the text alone; that is named by
/// `json_accepts`, and the value it builds, a function of the text alone, by `json_value`.
#[verifier::external_body]
fn json_from_str(text: &str) -> (r: Option<serde_json::Value>)
    ensures
        r is Some <==> json_accepts(text@),
        r matches Some(v) ==> v == json_value(text@),
{
    serde_json::from_str(text).ok()
}

/// Parses a JSON document, such as the metadata cricket dumps for a robot; `None` exactly when
/// the text is not JSON.
pub fn parse_json(text: &str) -> (value: Option<serde_json::Value>)
    ensures
        value is Some <==> json_accepts(text@),
        value matches Some(v) ==> v == json_value(text@),
{
    json_from_str(text)
}

} // verus!
