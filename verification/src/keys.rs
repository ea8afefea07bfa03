//! Cloning and comparing the user-supplied key types (assets and account
//! identifiers).
//!
//! vstd's `obeys_key_model::<K>()` states that `K` is a lawful hash-map key:
//! its hash is deterministic, its `==` holds exactly of identical values, and
//! its `clone` returns a value identical to the original. The two functions
//! below carry the last two of those facts to the calls that rely on them.
use vstd::prelude::*;
use vstd::std_specs::hash::obeys_key_model;

verus! {

/// Calls `Clone::clone` on a key. For a lawful key type the clone is the
/// same value as the original; for other types nothing is claimed.
#[verifier::external_body]
pub(crate) fn clone_key<K: Clone>(key: &K) -> (r: K)
    ensures
        obeys_key_model::<K>() ==> r == *key,
{
    key.clone()
}

/// Calls `PartialEq::eq` on two keys. For a lawful key type it answers
/// whether they are the same value; for other types nothing is claimed.
#[verifier::external_body]
pub(crate) fn equal_keys<K: Eq>(x: &K, y: &K) -> (r: bool)
    ensures
        obeys_key_model::<K>() ==> r == (*x == *y),
{
    x == y
}

} // verus!
