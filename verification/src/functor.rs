//! Mapping the elements of a one-slot container.

use crate::convert::{array_into_vec, vec_into_array};
use crate::relation::{accepts_all, maps_each, repeats, splits_each};
use std::collections::VecDeque;
use vstd::prelude::*;

verus! {

/// A value that holds elements of type `A` in a definite order.
pub trait Container<A> {
    /// The elements held, in the container's natural iteration order.
    spec fn items(&self) -> Seq<A>;
}

/// The primitive behind [`Functor::fmap`]: how one container type maps its
/// `A`s to `B`s, and which type comes out.
pub trait Lift<A, B>: Container<A> + Sized {
    /// The same container shape holding `B` in place of `A`.
    type Target: Container<B>;

    /// What `r` must share with `self` besides the mapped elements: whatever
    /// the container holds that is not an `A` is carried over unchanged.
    spec fn keeps_rest(&self, r: &Self::Target) -> bool;

    /// Consumes the container and applies `f` to each element, in order.
    fn lift<F>(self, f: F) -> (r: Self::Target) where F: Fn(A) -> B
        requires
            accepts_all(f, self.items()),
        ensures
            maps_each(f, self.items(), r.items()),
            self.keeps_rest(&r),
    ;
}

/// A container that starts out empty and grows at its back, one element at
/// a time.
pub trait Extendable<T>: Container<T> + Sized {
    /// A container holding nothing.
    fn empty() -> (r: Self)
        ensures
            r.items() == Seq::<T>::empty(),
    ;

    /// Adds `item` after everything already held.
    fn extend_one(&mut self, item: T)
        ensures
            final(self).items() == old(self).items().push(item),
    ;
}

/// A container whose elements can be mapped to another type, keeping its
/// shape: the same number of elements, in the same order, and everything
/// else it holds untouched.
///
/// A function from `A` to `A` changes the values and keeps the type.
pub trait Functor<A>: Container<A> + Sized {
    /// Maps a container of `A` to one of `B` by applying `f` to each element
    /// exactly once, in iteration order.
    fn fmap<B, F>(self, f: F) -> (r: <Self as Lift<A, B>>::Target) where
        Self: Lift<A, B>,
        F: Fn(A) -> B,

        requires
            accepts_all(f, self.items()),
        ensures
            maps_each(f, self.items(), r.items()),
            self.keeps_rest(&r),
    {
        self.lift(f)
    }

    /// Replaces every element by a clone of `b`.
    fn fconst<B>(self, b: B) -> (r: <Self as Lift<A, B>>::Target) where
        Self: Lift<A, B>,
        B: Clone,

        ensures
            repeats(b, self.items().len(), r.items()),
            self.keeps_rest(&r),
    {
        self.fmap(move |_a: A| -> (c: B) ensures cloned(b, c) { b.clone() })
    }

    /// Replaces every element by `()`, leaving only the shape.
    fn void(self) -> (r: <Self as Lift<A, ()>>::Target) where Self: Lift<A, ()>
        ensures
            r.items() == Seq::new(self.items().len(), |i: int| ()),
            self.keeps_rest(&r),
    {
        self.fconst(())
    }

    /// Drains the container into a vector of its elements, in iteration
    /// order.
    fn f_into_iter(self) -> (r: Vec<A>)
        ensures
            r@ == self.items(),
    ;

    /// Splits every element in two with `f` and collects the left halves and
    /// the right halves into two containers, each in the original order.
    fn funzip<L, R, FL, FR, Z>(self, f: Z) -> (r: (FL, FR)) where
        Self: Lift<A, L, Target = FL> + Lift<A, R, Target = FR>,
        FL: Extendable<L>,
        FR: Extendable<R>,
        Z: Fn(A) -> (L, R),

        requires
            accepts_all(f, self.items()),
        ensures
            splits_each(f, self.items(), r.0.items(), r.1.items()),
    {
        let ghost src = self.items();
        let elems = self.f_into_iter();
        let mut left = FL::empty();
        let mut right = FR::empty();
        for a in it: elems.into_iter()
            invariant
                it.seq() == src,
                accepts_all(f, src),
                left.items().len() == it.index(),
                right.items().len() == it.index(),
                forall|i: int|
                    0 <= i < it.index() ==> call_ensures(
                        f,
                        (src[i],),
                        (#[trigger] left.items()[i], right.items()[i]),
                    ),
        {
            let (l, r) = f(a);
            left.extend_one(l);
            right.extend_one(r);
        }
        (left, right)
    }
}

/// Applies `f` to every element of a vector, front to back.
pub fn map_vec<A, B, F>(v: Vec<A>, f: F) -> (r: Vec<B>) where F: Fn(A) -> B
    requires
        accepts_all(f, v@),
    ensures
        maps_each(f, v@, r@),
{
    let ghost src = v@;
    let mut out: Vec<B> = Vec::with_capacity(v.len());
    for a in it: v.into_iter()
        invariant
            it.seq() == src,
            accepts_all(f, src),
            out@.len() == it.index(),
            forall|i: int| 0 <= i < out@.len() ==> call_ensures(f, (src[i],), #[trigger] out@[i]),
    {
        out.push(f(a));
    }
    out
}

impl<A> Container<A> for Option<A> {
    /// The value that is present, or nothing.
    open spec fn items(&self) -> Seq<A> {
        match *self {
            Some(a) => seq![a],
            None => Seq::empty(),
        }
    }
}

impl<A, B> Lift<A, B> for Option<A> {
    type Target = Option<B>;

    open spec fn keeps_rest(&self, r: &Option<B>) -> bool {
        true
    }

    fn lift<F>(self, f: F) -> (r: Option<B>) where F: Fn(A) -> B {
        match self {
            Some(a) => {
                assert(self.items()[0] == a);
                let b = f(a);
                Some(b)
            },
            None => None,
        }
    }
}

impl<A> Functor<A> for Option<A> {
    fn f_into_iter(self) -> (r: Vec<A>) {
        let mut out = Vec::new();
        if let Some(a) = self {
            out.push(a);
        }
        out
    }
}

impl<A, E> Container<A> for Result<A, E> {
    /// The success payload, or nothing: an error is no element.
    open spec fn items(&self) -> Seq<A> {
        match *self {
            Ok(a) => seq![a],
            Err(_) => Seq::empty(),
        }
    }
}

impl<A, B, E> Lift<A, B> for Result<A, E> {
    type Target = Result<B, E>;

    /// An error is handed on as it is.
    open spec fn keeps_rest(&self, r: &Result<B, E>) -> bool {
        match *self {
            Ok(_) => *r is Ok,
            Err(e) => *r == Err::<B, E>(e),
        }
    }

    fn lift<F>(self, f: F) -> (r: Result<B, E>) where F: Fn(A) -> B {
        match self {
            Ok(a) => {
                assert(self.items()[0] == a);
                let b = f(a);
                Ok(b)
            },
            Err(e) => Err(e),
        }
    }
}

impl<A, E> Functor<A> for Result<A, E> {
    fn f_into_iter(self) -> (r: Vec<A>) {
        let mut out = Vec::new();
        if let Ok(a) = self {
            out.push(a);
        }
        out
    }
}

impl<A, const N: usize> Container<A> for [A; N] {
    open spec fn items(&self) -> Seq<A> {
        self@
    }
}

impl<A, B, const N: usize> Lift<A, B> for [A; N] {
    type Target = [B; N];

    open spec fn keeps_rest(&self, r: &[B; N]) -> bool {
        true
    }

    /// Every one of the `N` slots of the result is filled exactly once, from
    /// the element at the same index: the elements pass through a growable
    /// buffer, which becomes an array only once it is known to hold `N`.
    fn lift<F>(self, f: F) -> (r: [B; N]) where F: Fn(A) -> B {
        let src = array_into_vec(self);
        let out = map_vec(src, f);
        match vec_into_array(out) {
            Ok(a) => a,
            Err(_) => unreached(),
        }
    }
}

impl<A, const N: usize> Functor<A> for [A; N] {
    fn f_into_iter(self) -> (r: Vec<A>) {
        array_into_vec(self)
    }
}

impl<A> Container<A> for Vec<A> {
    open spec fn items(&self) -> Seq<A> {
        self@
    }
}

impl<A, B> Lift<A, B> for Vec<A> {
    type Target = Vec<B>;

    open spec fn keeps_rest(&self, r: &Vec<B>) -> bool {
        true
    }

    fn lift<F>(self, f: F) -> (r: Vec<B>) where F: Fn(A) -> B {
        map_vec(self, f)
    }
}

impl<A> Functor<A> for Vec<A> {
    fn f_into_iter(self) -> (r: Vec<A>) {
        self
    }
}

impl<T> Extendable<T> for Vec<T> {
    fn empty() -> (r: Self) {
        Vec::new()
    }

    fn extend_one(&mut self, item: T) {
        self.push(item);
    }
}

impl<A> Container<A> for VecDeque<A> {
    open spec fn items(&self) -> Seq<A> {
        self@
    }
}

impl<A, B> Lift<A, B> for VecDeque<A> {
    type Target = VecDeque<B>;

    open spec fn keeps_rest(&self, r: &VecDeque<B>) -> bool {
        true
    }

    fn lift<F>(self, f: F) -> (r: VecDeque<B>) where F: Fn(A) -> B {
        let ghost src = self@;
        let mut rest = self;
        let mut out: VecDeque<B> = VecDeque::new();
        loop
            invariant
                accepts_all(f, src),
                out@.len() + rest@.len() == src.len(),
                rest@ == src.subrange(out@.len() as int, src.len() as int),
                forall|i: int|
                    0 <= i < out@.len() ==> call_ensures(f, (src[i],), #[trigger] out@[i]),
            ensures
                rest@.len() == 0,
            decreases rest@.len(),
        {
            match rest.pop_front() {
                Some(a) => out.push_back(f(a)),
                None => break ,
            }
        }
        out
    }
}

impl<A> Functor<A> for VecDeque<A> {
    fn f_into_iter(self) -> (r: Vec<A>) {
        let ghost src = self@;
        let mut rest = self;
        let mut out: Vec<A> = Vec::new();
        loop
            invariant
                out@.len() + rest@.len() == src.len(),
                rest@ == src.subrange(out@.len() as int, src.len() as int),
                out@ == src.subrange(0, out@.len() as int),
            ensures
                rest@.len() == 0,
            decreases rest@.len(),
        {
            match rest.pop_front() {
                Some(a) => out.push(a),
                None => break ,
            }
        }
        out
    }
}

impl<T> Extendable<T> for VecDeque<T> {
    fn empty() -> (r: Self) {
        VecDeque::new()
    }

    fn extend_one(&mut self, item: T) {
        self.push_back(item);
    }
}

} // verus!
