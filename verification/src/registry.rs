//! Reading the registry's answer: the latest published version of a
//! package, out of the JSON body of its metadata endpoint.
//!
//! The network call happens outside the library; this module is handed
//! the response body and digs the `info.version` string out of it
//! through serde_json.  What that lookup yields is a function of the
//! body alone, so it carries a name, `json_str_at`, and the extraction
//! is exact over it.

use vstd::prelude::*;
use crate::engine::opt_view;

verus! {

/// The string under `k1`.`k2` of the JSON document `doc` parses to:
/// present exactly when `doc` parses, holds an object under `k1`
/// whose member `k2` is a JSON string.  A name for what serde_json's
/// lookup chain returns, which depends on its arguments alone.
pub uninterp spec fn json_str_at(doc: Seq<char>, k1: Seq<char>, k2: Seq<char>) -> Option<
    Seq<char>,
>;

/// Relies on serde_json::from_str, Value::get and Value::as_str: the
/// parse is deterministic in the document, `get` reads the member
/// under a key of an object (and is `None` otherwise), and `as_str`
/// yields the text of a JSON string value.  The chain as a whole is
/// the function named `json_str_at`.
#[verifier::external_body]
fn json_string_under(doc: &str, k1: &str, k2: &str) -> (r: Option<String>)
    ensures
        opt_view(r) == json_str_at(doc@, k1@, k2@),
{
    let v: serde_json::Value = serde_json::from_str(doc).ok()?;
    Some(v.get(k1)?.get(k2)?.as_str()?.to_string())
}

/// The latest published version in a registry metadata document: the
/// string under `info.version`, if the body parses as JSON and holds
/// one there; anything else yields nothing, which the caller treats
/// as a failed resolution.
pub fn extract_latest_version(body: &str) -> (r: Option<String>)
    ensures
        opt_view(r) == json_str_at(body@, "info"@, "version"@),
{
    json_string_under(body, "info", "version")
}

} // verus!
