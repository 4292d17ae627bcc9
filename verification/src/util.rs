//! Free helpers: guarded subtraction, pairing of options, element distance.

use vstd::prelude::*;
use vstd::std_specs::cmp::{PartialOrdIs, PartialOrdSpec};
use vstd::std_specs::ops::SubSpec;

verus! {

/// `a - b` exactly when `a >= b`, and nothing otherwise.
///
/// The subtraction is only ever attempted when `a >= b`, so its own
/// precondition is demanded for those inputs alone. For the built-in unsigned
/// integers that precondition follows from `a >= b`, so no caller of those
/// types owes anything.
pub fn checked_sub<A: PartialOrd<B> + core::ops::Sub<B>, B>(a: A, b: B) -> (r: Option<A::Output>)
    requires
        A::obeys_partial_cmp_spec() ==> (a.is_ge(&b) ==> a.sub_req(b)),
        !A::obeys_partial_cmp_spec() ==> a.sub_req(b),
    ensures
        A::obeys_partial_cmp_spec() ==> (r is Some <==> a.is_ge(&b)),
        A::obeys_sub_spec() ==> (r is Some ==> r == Some(a.sub_spec(b))),
        call_ensures(A::ge, (&a, &b), r is Some),
        r matches Some(d) ==> call_ensures(A::sub, (a, b), d),
{
    if a >= b {
        Some(a - b)
    } else {
        None
    }
}

/// The pair of both contents when both options are present, else `None`.
pub fn zip_opt<A, B>(x: Option<A>, y: Option<B>) -> (r: Option<(A, B)>)
    ensures
        r == match (x, y) {
            (Some(a), Some(b)) => Some((a, b)),
            _ => None,
        },
{
    match (x, y) {
        (Some(x), Some(y)) => Some((x, y)),
        _ => None,
    }
}

/// Number of whole elements of type `A` between two addresses within one
/// allocation, `q` at or after `p`: the byte distance divided by the element
/// size.
///
/// The order of the two addresses and a non-zero element size are the
/// caller's obligation; nothing wraps and nothing divides by zero.
pub fn ptr_diff<A>(q: usize, p: usize) -> (r: usize)
    requires
        p <= q,
        vstd::layout::size_of::<A>() > 0,
    ensures
        r == (q - p) / (vstd::layout::size_of::<A>() as int),
{
    (q - p) / core::mem::size_of::<A>()
}

} // verus!
