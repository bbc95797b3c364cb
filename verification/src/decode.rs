//! Validation of serialized schema text.
//!
//! Serialized schemas are opaque to this library: decoding them into
//! structured data is the engine's job at render time. The library's own
//! duty is to reject malformed text at the moment it is handed in, so the
//! caller learns of the mistake at the call that made it.

use vstd::prelude::*;

verus! {

/// Whether the text parses as a JSON document. What makes a text valid
/// takes the whole JSON grammar to state, so it is left abstract here;
/// it is a function of the text alone.
pub uninterp spec fn json_text_valid(text: Seq<char>) -> bool;

/// Relies on `serde_json::from_str::<serde_json::Value>`: whether parsing
/// succeeds depends on the text alone, and this wrapper reports only that.
#[verifier::external_body]
pub(crate) fn json_is_valid(text: &str) -> (r: bool)
    ensures
        r == json_text_valid(text@),
{
    serde_json::from_str::<serde_json::Value>(text).is_ok()
}

} // verus!
