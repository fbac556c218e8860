//! Query-string rendering, delegated to serde_urlencoded.

use vstd::prelude::*;

verus! {

/// The `application/x-www-form-urlencoded` rendering of the pairs, in
/// order: percent-encoded key, `=`, percent-encoded value, pairs joined by
/// `&`.
pub uninterp spec fn urlencoded_of(pairs: Seq<(Seq<char>, Seq<char>)>) -> Seq<char>;

/// Relies on serde_urlencoded::to_string: renders a sequence of string
/// pairs in order as `key=value` joined by `&`, percent-encoding keys and
/// values; string pairs never fail to serialize, no pairs give an empty
/// string, and any pair contributes at least its `=`.
#[verifier::external_body]
pub(crate) fn encode_pairs(pairs: &Vec<(String, String)>) -> (r: String)
    ensures
        r@ == urlencoded_of(pairs.deep_view()),
        pairs.deep_view().len() == 0 ==> r@.len() == 0,
        pairs.deep_view().len() > 0 ==> r@.len() > 0,
{
    serde_urlencoded::to_string(pairs).unwrap_or_default()
}

} // verus!
