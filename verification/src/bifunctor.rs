//! Mapping both slots of a two-slot container.

use crate::convert::{btree_map_into_entries, hash_map_into_entries};
use crate::entries::{from_entries, keys_of, lemma_from_entries_push, lists, relates_entries};
use std::collections::{BTreeMap, HashMap};
use std::hash::{BuildHasher, Hash};
use vstd::laws_cmp::obeys_cmp;
use vstd::prelude::*;
use vstd::std_specs::btree::increasing_seq;
use vstd::std_specs::hash::{builds_valid_hashers, obeys_key_model};

verus! {

/// Names the container that results from replacing `A` by `C` and `B` by
/// `D` in `Self`.
pub trait Bilift<A, B, C, D>: Sized {
    /// The same container shape holding `C` and `D`.
    type Target;
}

/// A `Functor` over two arguments.
///
/// What an implementation does is stated over relations in place of
/// functions: `left(a, c)` reads "the left function may take `a` to `c`".
/// That way the same two statements serve every pair of functions, and the
/// identity is simply the relation of equality.
pub trait Bifunctor<A, B, C, D>: Bilift<A, B, C, D> {
    /// The container can be mapped by functions that may be called on every
    /// `A` for which `left` holds and every `B` for which `right` holds.
    spec fn admits(&self, left: spec_fn(A) -> bool, right: spec_fn(B) -> bool) -> bool;

    /// `r` is the container with `left` applied to what it holds of `A` and
    /// `right` applied to what it holds of `B`.
    spec fn bimapped(
        &self,
        left: spec_fn(A, C) -> bool,
        right: spec_fn(B, D) -> bool,
        r: &<Self as Bilift<A, B, C, D>>::Target,
    ) -> bool;

    /// A result for two relations is a result for any two relations that
    /// include them.
    proof fn lemma_bimapped_monotone(
        &self,
        left: spec_fn(A, C) -> bool,
        right: spec_fn(B, D) -> bool,
        wider_left: spec_fn(A, C) -> bool,
        wider_right: spec_fn(B, D) -> bool,
        r: &<Self as Bilift<A, B, C, D>>::Target,
    )
        requires
            self.bimapped(left, right, r),
            forall|a: A, c: C| #[trigger] left(a, c) ==> wider_left(a, c),
            forall|b: B, d: D| #[trigger] right(b, d) ==> wider_right(b, d),
        ensures
            self.bimapped(wider_left, wider_right, r),
    ;

    /// Consumes the container and maps what it holds of `A` with `left` and
    /// what it holds of `B` with `right`.
    fn bimap<L, R>(self, left: L, right: R) -> (r: <Self as Bilift<A, B, C, D>>::Target) where
        L: Fn(A) -> C,
        R: Fn(B) -> D,

        requires
            self.admits(|a: A| call_requires(left, (a,)), |b: B| call_requires(right, (b,))),
        ensures
            self.bimapped(
                |a: A, c: C| call_ensures(left, (a,), c),
                |b: B, d: D| call_ensures(right, (b,), d),
                &r,
            ),
    ;
}

/// Mapping the first slot alone: `lmap(c, f)` is `bimap(c, f, identity)`.
pub trait BifunctorLeft<A, B, C>: Bifunctor<A, B, C, B> {
    /// Maps what the container holds of `A` with `f` and hands everything it
    /// holds of `B` on unchanged.
    fn lmap<F>(self, f: F) -> (r: <Self as Bilift<A, B, C, B>>::Target) where F: Fn(A) -> C
        requires
            self.admits(|a: A| call_requires(f, (a,)), |b: B| true),
        ensures
            self.bimapped(|a: A, c: C| call_ensures(f, (a,), c), |b: B, d: B| d == b, &r),
    ;
}

impl<T, A, B, C> BifunctorLeft<A, B, C> for T where T: Bifunctor<A, B, C, B> {
    fn lmap<F>(self, f: F) -> (r: <Self as Bilift<A, B, C, B>>::Target) where F: Fn(A) -> C {
        let keep = |b: B| -> (d: B)
            ensures
                d == b,
            { b };
        assert((|b: B| call_requires(keep, (b,))) =~= (|b: B| true));
        let r = self.bimap(f, keep);
        proof {
            self.lemma_bimapped_monotone(
                |a: A, c: C| call_ensures(f, (a,), c),
                |b: B, d: B| call_ensures(keep, (b,), d),
                |a: A, c: C| call_ensures(f, (a,), c),
                |b: B, d: B| d == b,
                &r,
            );
        }
        r
    }
}

/// Mapping the second slot alone: `rmap(c, f)` is `bimap(c, identity, f)`.
pub trait BifunctorRight<A, B, C>: Bifunctor<A, B, A, C> {
    /// Maps what the container holds of `B` with `f` and hands everything it
    /// holds of `A` on unchanged.
    fn rmap<F>(self, f: F) -> (r: <Self as Bilift<A, B, A, C>>::Target) where F: Fn(B) -> C
        requires
            self.admits(|a: A| true, |b: B| call_requires(f, (b,))),
        ensures
            self.bimapped(|a: A, c: A| c == a, |b: B, d: C| call_ensures(f, (b,), d), &r),
    ;
}

impl<T, A, B, C> BifunctorRight<A, B, C> for T where T: Bifunctor<A, B, A, C> {
    fn rmap<F>(self, f: F) -> (r: <Self as Bilift<A, B, A, C>>::Target) where F: Fn(B) -> C {
        let keep = |a: A| -> (c: A)
            ensures
                c == a,
            { a };
        assert((|a: A| call_requires(keep, (a,))) =~= (|a: A| true));
        let r = self.bimap(keep, f);
        proof {
            self.lemma_bimapped_monotone(
                |a: A, c: A| call_ensures(keep, (a,), c),
                |b: B, d: C| call_ensures(f, (b,), d),
                |a: A, c: A| c == a,
                |b: B, d: C| call_ensures(f, (b,), d),
                &r,
            );
        }
        r
    }
}

impl<A, B, C, D> Bilift<A, B, C, D> for Result<A, B> {
    type Target = Result<C, D>;
}

impl<A, B, C, D> Bifunctor<A, B, C, D> for Result<A, B> {
    /// A result holds one payload: only the function for that side has to
    /// accept it, and nothing is asked of the other function.
    open spec fn admits(&self, left: spec_fn(A) -> bool, right: spec_fn(B) -> bool) -> bool {
        match *self {
            Ok(a) => left(a),
            Err(b) => right(b),
        }
    }

    /// A success stays a success with `left` applied, an error stays an
    /// error with `right` applied.
    open spec fn bimapped(
        &self,
        left: spec_fn(A, C) -> bool,
        right: spec_fn(B, D) -> bool,
        r: &Result<C, D>,
    ) -> bool {
        match *self {
            Ok(a) => *r matches Ok(c) && left(a, c),
            Err(b) => *r matches Err(d) && right(b, d),
        }
    }

    proof fn lemma_bimapped_monotone(
        &self,
        left: spec_fn(A, C) -> bool,
        right: spec_fn(B, D) -> bool,
        wider_left: spec_fn(A, C) -> bool,
        wider_right: spec_fn(B, D) -> bool,
        r: &Result<C, D>,
    ) {
    }

    /// Exactly one of the two functions is applied: `left` to a success,
    /// `right` to an error. The other one is not called, and so need not
    /// accept anything.
    fn bimap<L, R>(self, left: L, right: R) -> (r: Result<C, D>) where
        L: Fn(A) -> C,
        R: Fn(B) -> D,

        ensures
            self matches Ok(a) ==> r matches Ok(c) && call_ensures(left, (a,), c),
            self matches Err(b) ==> r matches Err(d) && call_ensures(right, (b,), d),
    {
        match self {
            Ok(a) => Ok(left(a)),
            Err(b) => Err(right(b)),
        }
    }
}

impl<A, B, C, D, S> Bilift<A, B, C, D> for HashMap<A, B, S> {
    type Target = HashMap<C, D, S>;
}

impl<A, B, C, D, S> Bifunctor<A, B, C, D> for HashMap<A, B, S> where
    A: Eq + Hash,
    C: Eq + Hash,
    S: BuildHasher + Default,
 {
    /// Both key types hash and compare as the verifier's model of a hash map
    /// asks, and the functions accept every key and every value of the map.
    open spec fn admits(&self, left: spec_fn(A) -> bool, right: spec_fn(B) -> bool) -> bool {
        &&& obeys_key_model::<A>()
        &&& obeys_key_model::<C>()
        &&& builds_valid_hashers::<S>()
        &&& forall|k: A| #[trigger] self@.contains_key(k) ==> left(k) && right(self@[k])
    }

    /// The entries are taken in some order, each key mapped by `left` and
    /// each value by `right`, and inserted in that order into an empty map:
    /// where two new keys collide, the entry that came later stays.
    open spec fn bimapped(
        &self,
        left: spec_fn(A, C) -> bool,
        right: spec_fn(B, D) -> bool,
        r: &HashMap<C, D, S>,
    ) -> bool {
        exists|src: Seq<(A, B)>, dst: Seq<(C, D)>|
            {
                &&& lists(src, self@)
                &&& #[trigger] relates_entries(left, right, src, dst)
                &&& r@ == from_entries(dst)
            }
    }

    proof fn lemma_bimapped_monotone(
        &self,
        left: spec_fn(A, C) -> bool,
        right: spec_fn(B, D) -> bool,
        wider_left: spec_fn(A, C) -> bool,
        wider_right: spec_fn(B, D) -> bool,
        r: &HashMap<C, D, S>,
    ) {
        let (src, dst) = choose|src: Seq<(A, B)>, dst: Seq<(C, D)>|
            {
                &&& lists(src, self@)
                &&& #[trigger] relates_entries(left, right, src, dst)
                &&& r@ == from_entries(dst)
            };
        assert(relates_entries(wider_left, wider_right, src, dst));
    }

    fn bimap<L, R>(self, left: L, right: R) -> (r: HashMap<C, D, S>) where
        L: Fn(A) -> C,
        R: Fn(B) -> D,
     {
        let ghost from = self@;
        let entries = hash_map_into_entries(self);
        let ghost src = entries@;
        let ghost mut dst: Seq<(C, D)> = Seq::empty();
        let mut out: HashMap<C, D, S> = HashMap::default();
        for entry in it: entries.into_iter()
            invariant
                it.seq() == src,
                lists(src, from),
                obeys_key_model::<C>(),
                builds_valid_hashers::<S>(),
                forall|k: A| #[trigger]
                    from.contains_key(k) ==> call_requires(left, (k,)) && call_requires(
                        right,
                        (from[k],),
                    ),
                dst.len() == it.index(),
                forall|j: int|
                    0 <= j < dst.len() ==> call_ensures(left, (src[j].0,), (#[trigger] dst[j]).0)
                        && call_ensures(right, (src[j].1,), dst[j].1),
                out@ == from_entries(dst),
        {
            let (k, v) = entry;
            let c = left(k);
            let d = right(v);
            proof {
                lemma_from_entries_push(dst, c, d);
                dst = dst.push((c, d));
            }
            out.insert(c, d);
        }
        assert(relates_entries(
            |a: A, c: C| call_ensures(left, (a,), c),
            |b: B, d: D| call_ensures(right, (b,), d),
            src,
            dst,
        ));
        out
    }
}

impl<A, B, C, D> Bilift<A, B, C, D> for BTreeMap<A, B> {
    type Target = BTreeMap<C, D>;
}

impl<A, B, C, D> Bifunctor<A, B, C, D> for BTreeMap<A, B> where A: Ord, C: Ord {
    /// Both key types are totally ordered as the verifier's model of an
    /// ordered map asks, and the functions accept every key and every value
    /// of the map.
    open spec fn admits(&self, left: spec_fn(A) -> bool, right: spec_fn(B) -> bool) -> bool {
        &&& obeys_cmp::<A>()
        &&& obeys_cmp::<C>()
        &&& forall|k: A| #[trigger] self@.contains_key(k) ==> left(k) && right(self@[k])
    }

    /// The entries are taken in ascending order of the old keys, each key
    /// mapped by `left` and each value by `right`, and inserted in that
    /// order into an empty map: where two new keys collide, the entry that
    /// came later stays.
    open spec fn bimapped(
        &self,
        left: spec_fn(A, C) -> bool,
        right: spec_fn(B, D) -> bool,
        r: &BTreeMap<C, D>,
    ) -> bool {
        exists|src: Seq<(A, B)>, dst: Seq<(C, D)>|
            {
                &&& lists(src, self@)
                &&& increasing_seq(keys_of(src))
                &&& #[trigger] relates_entries(left, right, src, dst)
                &&& r@ == from_entries(dst)
            }
    }

    proof fn lemma_bimapped_monotone(
        &self,
        left: spec_fn(A, C) -> bool,
        right: spec_fn(B, D) -> bool,
        wider_left: spec_fn(A, C) -> bool,
        wider_right: spec_fn(B, D) -> bool,
        r: &BTreeMap<C, D>,
    ) {
        let (src, dst) = choose|src: Seq<(A, B)>, dst: Seq<(C, D)>|
            {
                &&& lists(src, self@)
                &&& increasing_seq(keys_of(src))
                &&& #[trigger] relates_entries(left, right, src, dst)
                &&& r@ == from_entries(dst)
            };
        assert(relates_entries(wider_left, wider_right, src, dst));
    }

    fn bimap<L, R>(self, left: L, right: R) -> (r: BTreeMap<C, D>) where
        L: Fn(A) -> C,
        R: Fn(B) -> D,
     {
        let ghost from = self@;
        let entries = btree_map_into_entries(self);
        let ghost src = entries@;
        let ghost mut dst: Seq<(C, D)> = Seq::empty();
        let mut out: BTreeMap<C, D> = BTreeMap::new();
        for entry in it: entries.into_iter()
            invariant
                it.seq() == src,
                lists(src, from),
                obeys_cmp::<C>(),
                forall|k: A| #[trigger]
                    from.contains_key(k) ==> call_requires(left, (k,)) && call_requires(
                        right,
                        (from[k],),
                    ),
                dst.len() == it.index(),
                forall|j: int|
                    0 <= j < dst.len() ==> call_ensures(left, (src[j].0,), (#[trigger] dst[j]).0)
                        && call_ensures(right, (src[j].1,), dst[j].1),
                out@ == from_entries(dst),
        {
            let (k, v) = entry;
            let c = left(k);
            let d = right(v);
            proof {
                lemma_from_entries_push(dst, c, d);
                dst = dst.push((c, d));
            }
            out.insert(c, d);
        }
        assert(relates_entries(
            |a: A, c: C| call_ensures(left, (a,), c),
            |b: B, d: D| call_ensures(right, (b,), d),
            src,
            dst,
        ));
        out
    }
}

} // verus!
