//! JSON documents, as `serde_json` reads them: a value is asked for by its JSON pointer.

use vstd::prelude::*;
use crate::text::opt_text;

verus! {

/// The text that `serde_json` finds at `pointer` in `document`; `None` where the document is not
/// JSON, or holds no string there.
pub uninterp spec fn json_text_at(document: Seq<u8>, pointer: Seq<char>) -> Option<Seq<char>>;

/// The number that `serde_json` finds at `pointer` in `document`; `None` where the document is
/// not JSON, or holds no number there that a `u64` can hold.
pub uninterp spec fn json_number_at(document: Seq<u8>, pointer: Seq<char>) -> Option<u64>;

/// Calls `serde_json::from_slice` for a `Value`, then `Value::pointer` and `Value::as_str`. What
/// comes out depends on the document and the pointer alone.
#[verifier::external_body]
pub(crate) fn text_at(document: &[u8], pointer: &str) -> (r: Option<String>)
    ensures
        opt_text(r) == json_text_at(document@, pointer@),
{
    let value: serde_json::Value = serde_json::from_slice(document).ok()?;
    value.pointer(pointer)?.as_str().map(str::to_owned)
}

/// Calls `serde_json::from_slice` for a `Value`, then `Value::pointer` and `Value::as_u64`. What
/// comes out depends on the document and the pointer alone.
#[verifier::external_body]
pub(crate) fn number_at(document: &[u8], pointer: &str) -> (r: Option<u64>)
    ensures
        r == json_number_at(document@, pointer@),
{
    let value: serde_json::Value = serde_json::from_slice(document).ok()?;
    value.pointer(pointer)?.as_u64()
}

} // verus!
