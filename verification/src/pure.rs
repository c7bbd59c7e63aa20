//! Building the smallest container around one value.

use std::collections::{BTreeMap, BTreeSet, HashMap, HashSet, VecDeque};
use std::hash::Hash;
use vstd::laws_cmp::obeys_cmp;
use vstd::prelude::*;
use vstd::std_specs::hash::obeys_key_model;

verus! {

/// A container that can be built around a single value of `A`: the result
/// holds that value and nothing else.
///
/// * `Option::pure(5)` is `Some(5)`.
/// * `Result::pure(5)` is `Ok(5)`.
/// * `Vec::pure(5)` is `vec![5]`.
pub trait Pure<A>: Sized {
    /// The container holds `value` and nothing else.
    spec fn holds_only(&self, value: A) -> bool;

    /// Wraps `value` in the smallest container that can hold it.
    fn pure(value: A) -> (r: Self)
        ensures
            r.holds_only(value),
    ;
}

impl<A> Pure<A> for Option<A> {
    open spec fn holds_only(&self, value: A) -> bool {
        *self == Some(value)
    }

    fn pure(value: A) -> (r: Self) {
        Some(value)
    }
}

impl<A, E> Pure<A> for Result<A, E> {
    open spec fn holds_only(&self, value: A) -> bool {
        *self == Ok::<A, E>(value)
    }

    fn pure(value: A) -> (r: Self) {
        Ok(value)
    }
}

impl<A> Pure<A> for Vec<A> {
    open spec fn holds_only(&self, value: A) -> bool {
        self@ == seq![value]
    }

    fn pure(value: A) -> (r: Self) {
        let mut out = Vec::with_capacity(1);
        out.push(value);
        out
    }
}

impl<A> Pure<A> for VecDeque<A> {
    open spec fn holds_only(&self, value: A) -> bool {
        self@ == seq![value]
    }

    fn pure(value: A) -> (r: Self) {
        let mut out = VecDeque::new();
        out.push_back(value);
        out
    }
}

impl<A: Hash + Eq> Pure<A> for HashSet<A> {
    /// The statement is made for element types whose hashing and equality
    /// agree with the verifier's notion of equality.
    open spec fn holds_only(&self, value: A) -> bool {
        obeys_key_model::<A>() ==> self@ == set![value]
    }

    fn pure(value: A) -> (r: Self) {
        let mut out = HashSet::new();
        out.insert(value);
        out
    }
}

impl<A: Ord> Pure<A> for BTreeSet<A> {
    /// The statement is made for element types whose ordering is a total
    /// order that agrees with the verifier's notion of equality.
    open spec fn holds_only(&self, value: A) -> bool {
        obeys_cmp::<A>() ==> self@ == set![value]
    }

    fn pure(value: A) -> (r: Self) {
        let mut out = BTreeSet::new();
        out.insert(value);
        out
    }
}

impl<K: Hash + Eq, V> Pure<(K, V)> for HashMap<K, V> {
    /// The statement is made for key types whose hashing and equality agree
    /// with the verifier's notion of equality.
    open spec fn holds_only(&self, value: (K, V)) -> bool {
        obeys_key_model::<K>() ==> self@ == map![value.0 => value.1]
    }

    fn pure(value: (K, V)) -> (r: Self) {
        let mut out = HashMap::new();
        out.insert(value.0, value.1);
        out
    }
}

impl<K: Ord, V> Pure<(K, V)> for BTreeMap<K, V> {
    /// The statement is made for key types whose ordering is a total order
    /// that agrees with the verifier's notion of equality.
    open spec fn holds_only(&self, value: (K, V)) -> bool {
        obeys_cmp::<K>() ==> self@ == map![value.0 => value.1]
    }

    fn pure(value: (K, V)) -> (r: Self) {
        let mut out = BTreeMap::new();
        out.insert(value.0, value.1);
        out
    }
}

} // verus!
