//! The laws that mapping obeys.
//!
//! Each law is stated over the relations that the contracts of
//! [`Functor::fmap`](crate::functor::Functor::fmap) and
//! [`Bifunctor::bimap`](crate::bifunctor::Bifunctor::bimap) use, so it
//! applies to the result of any call of those functions.

use crate::bifunctor::{Bifunctor, Bilift};
use crate::entries::{
    distinct_keys, from_entries, lemma_from_entries_distinct, lemma_lists_round_trip, lists,
    relates_entries,
};
use crate::functor::{Container, Lift};
use crate::relation::{composes, computes, maps_each, returns_argument, single_valued};
use vstd::prelude::*;

verus! {

/// Mapping with a function that computes `g` gives `g` of each element, in
/// place: the result is determined by the container and by what the
/// function computes.
pub proof fn law_maps_as_computed<A, B, F: Fn(A) -> B>(
    c: Seq<A>,
    f: F,
    g: spec_fn(A) -> B,
    r: Seq<B>,
)
    requires
        computes(f, g),
        maps_each(f, c, r),
    ensures
        r == c.map_values(g),
{
}

/// Identity law: mapping with a function that hands its argument back
/// leaves the elements as they were, in number, order and value.
pub proof fn law_identity<A, F: Fn(A) -> A>(c: Seq<A>, f: F, r: Seq<A>)
    requires
        returns_argument(f),
        maps_each(f, c, r),
    ensures
        r == c,
{
}

/// Identity law for optional values: mapping with a function that hands its
/// argument back gives the same optional value.
pub proof fn law_identity_option<A, F: Fn(A) -> A>(c: Option<A>, f: F, r: Option<A>)
    requires
        returns_argument(f),
        maps_each(f, c.items(), r.items()),
    ensures
        r == c,
{
    law_identity(c.items(), f, r.items());
    if c is Some {
        assert(c.items()[0] == r.items()[0]);
    }
}

/// Identity law for results: mapping the success payload with a function
/// that hands its argument back gives the same result, error included.
pub proof fn law_identity_result<A, E, F: Fn(A) -> A>(c: Result<A, E>, f: F, r: Result<A, E>)
    requires
        returns_argument(f),
        maps_each(f, c.items(), r.items()),
        Lift::<A, A>::keeps_rest(&c, &r),
    ensures
        r == c,
{
    law_identity(c.items(), f, r.items());
    if c is Ok {
        assert(c.items()[0] == r.items()[0]);
    }
}

/// Composition law: mapping with `f` and then with `g` gives what mapping
/// once with `g` after `f` gives, for functions that have one result for
/// each argument.
///
/// `via` is the result of the first step, `twice` of the second, and `once`
/// the result of the single step with the composed function `h`.
pub proof fn law_composition<A, B, C, F, G, H>(
    c: Seq<A>,
    f: F,
    g: G,
    h: H,
    via: Seq<B>,
    twice: Seq<C>,
    once: Seq<C>,
) where F: Fn(A) -> B, G: Fn(B) -> C, H: Fn(A) -> C
    requires
        single_valued(f),
        single_valued(g),
        composes(h, g, f),
        maps_each(f, c, via),
        maps_each(g, via, twice),
        maps_each(h, c, once),
    ensures
        twice == once,
{
    assert forall|i: int| 0 <= i < c.len() implies twice[i] == once[i] by {
        // `once[i]` is a result of `g` on some result `b` of `f` on `c[i]`,
        // and the only result of `f` on `c[i]` is `via[i]`
        let b = choose|b: B| call_ensures(f, (c[i],), b) && call_ensures(g, (b,), once[i]);
        assert(b == via[i]);
    }
}

/// `lmap` is `bimap` with the identity on the right.
///
/// `id` stands for the identity: it returns nothing but its argument. Then
/// every result that `bimap(c, f, id)` may give is a result that
/// `lmap(c, f)` may give; and where `id` may indeed return each argument,
/// every result of `lmap(c, f)` is one of `bimap(c, f, id)` too.
pub proof fn law_lmap_is_bimap<T, A, B, C, F, I>(
    c: T,
    f: F,
    id: I,
    r: <T as Bilift<A, B, C, B>>::Target,
) where T: Bifunctor<A, B, C, B>, F: Fn(A) -> C, I: Fn(B) -> B
    requires
        returns_argument(id),
    ensures
        c.bimapped(
            |a: A, x: C| call_ensures(f, (a,), x),
            |b: B, d: B| call_ensures(id, (b,), d),
            &r,
        ) ==> c.bimapped(|a: A, x: C| call_ensures(f, (a,), x), |b: B, d: B| d == b, &r),
        (forall|b: B| call_ensures(id, (b,), b)) && c.bimapped(
            |a: A, x: C| call_ensures(f, (a,), x),
            |b: B, d: B| d == b,
            &r,
        ) ==> c.bimapped(
            |a: A, x: C| call_ensures(f, (a,), x),
            |b: B, d: B| call_ensures(id, (b,), d),
            &r,
        ),
{
    let with_f = |a: A, x: C| call_ensures(f, (a,), x);
    let with_id = |b: B, d: B| call_ensures(id, (b,), d);
    let equal = |b: B, d: B| d == b;
    if c.bimapped(with_f, with_id, &r) {
        c.lemma_bimapped_monotone(with_f, with_id, with_f, equal, &r);
    }
    if (forall|b: B| call_ensures(id, (b,), b)) && c.bimapped(with_f, equal, &r) {
        c.lemma_bimapped_monotone(with_f, equal, with_f, with_id, &r);
    }
}

/// `rmap` is `bimap` with the identity on the left.
///
/// `id` stands for the identity: it returns nothing but its argument. Then
/// every result that `bimap(c, id, f)` may give is a result that
/// `rmap(c, f)` may give; and where `id` may indeed return each argument,
/// every result of `rmap(c, f)` is one of `bimap(c, id, f)` too.
pub proof fn law_rmap_is_bimap<T, A, B, C, F, I>(
    c: T,
    f: F,
    id: I,
    r: <T as Bilift<A, B, A, C>>::Target,
) where T: Bifunctor<A, B, A, C>, F: Fn(B) -> C, I: Fn(A) -> A
    requires
        returns_argument(id),
    ensures
        c.bimapped(
            |a: A, x: A| call_ensures(id, (a,), x),
            |b: B, d: C| call_ensures(f, (b,), d),
            &r,
        ) ==> c.bimapped(|a: A, x: A| x == a, |b: B, d: C| call_ensures(f, (b,), d), &r),
        (forall|a: A| call_ensures(id, (a,), a)) && c.bimapped(
            |a: A, x: A| x == a,
            |b: B, d: C| call_ensures(f, (b,), d),
            &r,
        ) ==> c.bimapped(
            |a: A, x: A| call_ensures(id, (a,), x),
            |b: B, d: C| call_ensures(f, (b,), d),
            &r,
        ),
{
    let with_id = |a: A, x: A| call_ensures(id, (a,), x);
    let with_f = |b: B, d: C| call_ensures(f, (b,), d);
    let equal = |a: A, x: A| x == a;
    if c.bimapped(with_id, with_f, &r) {
        c.lemma_bimapped_monotone(with_id, with_f, equal, with_f, &r);
    }
    if (forall|a: A| call_ensures(id, (a,), a)) && c.bimapped(equal, with_f, &r) {
        c.lemma_bimapped_monotone(equal, with_f, with_id, with_f, &r);
    }
}

/// Mapping the entries of a map keeps their number unless two new keys
/// collide: where the new keys are distinct, the assembled map has as many
/// entries as the map that was taken apart, and every old entry is found in
/// it under a new key that `left` gives, with a new value that `right`
/// gives.
pub proof fn law_distinct_keys_keep_entries<A, B, C, D>(
    m: Map<A, B>,
    left: spec_fn(A, C) -> bool,
    right: spec_fn(B, D) -> bool,
    src: Seq<(A, B)>,
    dst: Seq<(C, D)>,
)
    requires
        lists(src, m),
        relates_entries(left, right, src, dst),
        distinct_keys(dst),
    ensures
        from_entries(dst).len() == m.len(),
        forall|k: A| #[trigger]
            m.contains_key(k) ==> exists|c: C|
                {
                    &&& #[trigger] left(k, c)
                    &&& from_entries(dst).contains_key(c)
                    &&& right(m[k], from_entries(dst)[c])
                },
{
    lemma_lists_round_trip(src, m);
    lemma_from_entries_distinct(dst);
    assert forall|k: A| #[trigger] m.contains_key(k) implies exists|c: C|
        {
            &&& #[trigger] left(k, c)
            &&& from_entries(dst).contains_key(c)
            &&& right(m[k], from_entries(dst)[c])
        } by {
        // `k` stands at some place of the listing; its new key stands at the
        // same place of the new entries
        let i = choose|i: int| 0 <= i < src.len() && (#[trigger] src[i]).0 == k;
        assert(left(src[i].0, dst[i].0));
        assert(from_entries(dst).contains_key(dst[i].0));
    }
}

} // verus!
