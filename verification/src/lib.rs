//! Functor-style traits over the standard containers.
//!
//! [`Functor`] maps the elements of a one-slot container, [`Bifunctor`] maps
//! both slots of a two-slot container, and [`Pure`] builds the smallest
//! container around one value. Every operation carries a contract stated
//! over the container's mathematical view.

pub mod bifunctor;
mod convert;
pub mod entries;
pub mod functor;
pub mod laws;
pub mod pure;
pub mod relation;

pub use crate::bifunctor::{Bifunctor, BifunctorLeft, BifunctorRight, Bilift};
pub use crate::functor::{Container, Extendable, Functor, Lift};
pub use crate::pure::Pure;
