//! Snapshots of the primary map as JSON text, encoded and decoded by
//! `serde_json`.

use crate::db::table::gathered;
use std::collections::HashMap;
use vstd::prelude::*;

verus! {

/// The error type of `serde_json`, carried through and never looked into.
#[verifier::external_type_specification]
#[verifier::external_body]
pub struct ExJsonError(serde_json::Error);

/// What `serde_json::from_str` reads out of `text` when asked for a map from
/// strings to strings: the map, or `None` where it reports an error.
pub uninterp spec fn json_decode(text: Seq<char>) -> Option<Map<Seq<char>, Seq<char>>>;

/// Calls `serde_json::from_str` for a `HashMap<String, String>` and hands its
/// entries out as a list, in the order in which the map yields them. The
/// entries, gathered into a map again, are what `json_decode` names; an error
/// comes back exactly where `json_decode` is `None`.
#[verifier::external_body]
pub(crate) fn decode_pairs(text: &str) -> (decoded: Result<
    Vec<(String, String)>,
    serde_json::Error,
>)
    ensures
        match decoded {
            Ok(pairs) => json_decode(text@) == Some(gathered(pairs.deep_view())),
            Err(_) => json_decode(text@) is None,
        },
{
    match serde_json::from_str::<HashMap<String, String>>(text) {
        Ok(map) => Ok(map.into_iter().collect()),
        Err(error) => Err(error),
    }
}

/// Calls `serde_json::to_string` on the `HashMap` made of `pairs`. The text
/// depends on the order in which that map is walked, so nothing is claimed of
/// it.
#[verifier::external_body]
pub(crate) fn encode_pairs(pairs: &Vec<(String, String)>) -> (encoded: Result<
    String,
    serde_json::Error,
>) {
    let map: HashMap<&String, &String> = pairs.iter().map(|pair| (&pair.0, &pair.1)).collect();
    serde_json::to_string(&map)
}

} // verus!
