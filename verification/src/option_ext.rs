//! Fallible lazy initialisation of an `Option` slot.

use crate::private::OptionExtSealed;
use vstd::prelude::*;

verus! {

pub trait OptionExt: OptionExtSealed {
    type Inner;

    /// The slot as a plain optional value.
    spec fn slot(&self) -> Option<Self::Inner>;

    /// Hands out the value in the slot, filling an empty slot from `f` first.
    ///
    /// * A full slot is left alone and `f` is not run (nothing is asked of
    ///   `f` in that case); the result borrows the value already there.
    /// * An empty slot runs `f`. On `Ok(v)` the slot holds `v` and the result
    ///   borrows it; on `Err(e)` the slot stays empty and `e` is returned as
    ///   it came.
    ///
    /// Whatever the caller later writes through the returned borrow is what
    /// the slot ends up holding.
    fn try_get_or_insert_with<E, F: FnOnce() -> Result<Self::Inner, E>>(&mut self, f: F) -> (r:
        Result<&mut Self::Inner, E>)
        requires
            old(self).slot() is None ==> call_requires(f, ()),
        ensures
            match old(self).slot() {
                Some(v) => r is Ok && *r->Ok_0 == v,
                None => match r {
                    Ok(a) => call_ensures(f, (), Ok(*a)),
                    Err(e) => call_ensures(f, (), Err(e)),
                },
            },
            match r {
                Ok(a) => final(self).slot() == Some(*final(a)),
                Err(_) => final(self).slot() is None,
            },
    ;
}

impl<A> OptionExtSealed for Option<A> {

}

impl<A> OptionExt for Option<A> {
    type Inner = A;

    open spec fn slot(&self) -> Option<A> {
        *self
    }

    fn try_get_or_insert_with<E, F: FnOnce() -> Result<A, E>>(&mut self, f: F) -> (r: Result<
        &mut A,
        E,
    >) {
        match self {
            Some(a) => Ok(a),
            None => match f() {
                Ok(v) => Ok(self.insert(v)),
                Err(e) => Err(e),
            },
        }
    }
}

} // verus!
