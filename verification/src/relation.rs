//! Vocabulary for talking about executable function values in contracts.
//!
//! An executable function value is known to the verifier only through two
//! relations: the arguments it may be called on, and the results it may
//! return for an argument. Everything the traits of this crate promise is
//! phrased over those two relations, lifted to whole sequences of elements.

use vstd::prelude::*;

verus! {

/// `f` may be called on every element of `src`.
pub open spec fn accepts_all<A, B, F: Fn(A) -> B>(f: F, src: Seq<A>) -> bool {
    forall|i: int| 0 <= i < src.len() ==> call_requires(f, (#[trigger] src[i],))
}

/// `dst` is `src` with `f` applied to each element, position by position:
/// same length, and `dst[i]` is a result of `f(src[i])`.
pub open spec fn maps_each<A, B, F: Fn(A) -> B>(f: F, src: Seq<A>, dst: Seq<B>) -> bool {
    &&& dst.len() == src.len()
    &&& forall|i: int| 0 <= i < src.len() ==> call_ensures(f, (src[i],), #[trigger] dst[i])
}

/// `left` and `right` hold the two halves of `f` applied to each element of
/// `src`, position by position.
pub open spec fn splits_each<A, L, R, F: Fn(A) -> (L, R)>(
    f: F,
    src: Seq<A>,
    left: Seq<L>,
    right: Seq<R>,
) -> bool {
    &&& left.len() == src.len()
    &&& right.len() == src.len()
    &&& forall|i: int|
        0 <= i < src.len() ==> call_ensures(f, (src[i],), (#[trigger] left[i], right[i]))
}

/// Every element of `dst` is a clone of `b`, and there are `n` of them.
pub open spec fn repeats<B: Clone>(b: B, n: nat, dst: Seq<B>) -> bool {
    &&& dst.len() == n
    &&& forall|i: int| 0 <= i < n ==> cloned(b, #[trigger] dst[i])
}

/// `f` computes `g`: whatever it returns for an argument is `g` of that
/// argument.
pub open spec fn computes<A, B, F: Fn(A) -> B>(f: F, g: spec_fn(A) -> B) -> bool {
    forall|a: A, b: B| call_ensures(f, (a,), b) ==> b == g(a)
}

/// `f` hands its argument back: whatever it returns equals what it was given.
pub open spec fn returns_argument<A, F: Fn(A) -> A>(f: F) -> bool {
    forall|a: A, b: A| call_ensures(f, (a,), b) ==> b == a
}

/// `f` has at most one result for each argument.
pub open spec fn single_valued<A, B, F: Fn(A) -> B>(f: F) -> bool {
    forall|a: A, b1: B, b2: B|
        #![trigger call_ensures(f, (a,), b1), call_ensures(f, (a,), b2)]
        call_ensures(f, (a,), b1) && call_ensures(f, (a,), b2) ==> b1 == b2
}

/// `h` is `g` after `f`: every result of `h` on `a` is a result of `g` on
/// some result of `f` on `a`.
pub open spec fn composes<A, B, C, F: Fn(A) -> B, G: Fn(B) -> C, H: Fn(A) -> C>(
    h: H,
    g: G,
    f: F,
) -> bool {
    forall|a: A, c: C| #[trigger]
        call_ensures(h, (a,), c) ==> exists|b: B|
            call_ensures(f, (a,), b) && call_ensures(g, (b,), c)
}

} // verus!
