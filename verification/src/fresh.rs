//! Fresh identifiers for collections and segments.
use vstd::prelude::*;

verus! {

/// Calls `uuid::Uuid::new_v4` and writes the UUID with `to_string`, which gives its
/// hyphenated lowercase form: 32 hexadecimal digits and 4 hyphens. The UUID is random, so
/// nothing else is stated of it; two calls may give the same string or not.
#[verifier::external_body]
pub(crate) fn new_uuid() -> (r: String)
    ensures
        r@.len() == 36,
{
    uuid::Uuid::new_v4().to_string()
}

} // verus!
