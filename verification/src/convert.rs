//! Conversions between standard containers that the verifier has no
//! specification for. Each function here is a single call into the standard
//! library whose contract is taken on trust from its documentation.

use crate::entries::{keys_of, lists};
use std::collections::{BTreeMap, HashMap};
use vstd::prelude::*;
use vstd::std_specs::btree::{increasing_seq, key_obeys_cmp_spec};
use vstd::std_specs::hash::{builds_valid_hashers, obeys_key_model};

verus! {

/// `Vec::from` applied to an array. The standard library documents it as
/// moving the array's elements, in order, into a freshly allocated vector;
/// the contract claims exactly that.
#[verifier::external_body]
pub(crate) fn array_into_vec<T, const N: usize>(a: [T; N]) -> (v: Vec<T>)
    ensures
        v@ == a@,
{
    Vec::from(a)
}

/// `<[T; N]>::try_from` applied to a vector. The standard library documents
/// it as returning the whole contents as an array when the length is exactly
/// `N`, and as handing the vector back untouched otherwise; the contract
/// claims exactly that.
#[verifier::external_body]
pub(crate) fn vec_into_array<T, const N: usize>(v: Vec<T>) -> (r: Result<[T; N], Vec<T>>)
    ensures
        match r {
            Ok(a) => v@.len() == N && a@ == v@,
            Err(w) => v@.len() != N && w@ == v@,
        },
{
    <[T; N]>::try_from(v)
}

/// `Vec::from_iter` applied to a hash map, which walks the map with its
/// consuming iterator. The standard library documents that iterator as
/// visiting every key-value pair once, in arbitrary order. The contract
/// claims that the vector lists the map's entries, each key once, and says
/// nothing of their order. As with every statement about a hash map's view,
/// it is made for key types and hashers that follow the verifier's model.
#[verifier::external_body]
pub(crate) fn hash_map_into_entries<K, V, S>(m: HashMap<K, V, S>) -> (v: Vec<(K, V)>)
    ensures
        obeys_key_model::<K>() && builds_valid_hashers::<S>() ==> lists(v@, m@),
{
    Vec::from_iter(m)
}

/// `Vec::from_iter` applied to an ordered map, which walks the map with its
/// consuming iterator. The standard library documents that iterator as
/// visiting every key-value pair once, in ascending order of the keys. The
/// contract claims that the vector lists the map's entries, each key once,
/// with the keys increasing. It is made for key types whose ordering
/// follows the verifier's model.
#[verifier::external_body]
pub(crate) fn btree_map_into_entries<K, V>(m: BTreeMap<K, V>) -> (v: Vec<(K, V)>)
    ensures
        key_obeys_cmp_spec::<K>() ==> lists(v@, m@) && increasing_seq(keys_of(v@)),
{
    Vec::from_iter(m)
}

} // verus!
