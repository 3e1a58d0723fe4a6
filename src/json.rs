//! Structured values as `serde_json` holds them, carried through the library
//! unchanged and printed by `serde_json` itself.
use vstd::prelude::*;

verus! {

#[verifier::external_type_specification]
#[verifier::external_body]
pub struct ExJsonValue(serde_json::Value);

/// Relies on the derived `Clone` of `serde_json::Value`: a deep copy, equal
/// to the value it was taken from.
pub assume_specification[ <serde_json::Value as Clone>::clone ](v: &serde_json::Value) -> (r:
    serde_json::Value)
    ensures
        r == *v,
;

/// The indented text of a value, or `None` where printing it fails.
pub uninterp spec fn pretty_json(v: serde_json::Value) -> Option<Seq<char>>;

/// Relies on `serde_json::to_string_pretty`: the text (or the failure)
/// depends on the value alone.
#[verifier::external_body]
pub(crate) fn to_pretty(v: &serde_json::Value) -> (r: Option<String>)
    ensures
        r is Some <==> pretty_json(*v) is Some,
        r is Some ==> r->Some_0@ == pretty_json(*v)->Some_0,
{
    serde_json::to_string_pretty(v).ok()
}

} // verus!
