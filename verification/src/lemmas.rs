//! Facts that relate the sortedness predicates to one another.

use crate::slice_ext::{sorted, sorted_by, sorted_by_key};
use core::cmp::Ordering;
use vstd::prelude::*;
use vstd::std_specs::cmp::OrdSpec;

verus! {

/// A sequence is sorted by key exactly when the sequence of its keys is
/// sorted.
pub proof fn lemma_sorted_by_key_is_sorted_keys<T, K: Ord>(s: Seq<T>, key: spec_fn(T) -> K)
    ensures
        sorted_by_key(s, key) == sorted(s.map_values(key)),
{
    let keys = s.map_values(key);
    assert(keys.len() == s.len());
    if sorted_by_key(s, key) {
        assert forall|i: int, j: int|
            #![trigger keys[j], keys[i]]
            0 <= i && i + 1 == j && j < keys.len() implies keys[j].cmp_spec(&keys[i])
            != Ordering::Less by {
            assert(key(s[j]).cmp_spec(&key(s[i])) != Ordering::Less);
        }
    }
    if sorted(keys) {
        assert forall|i: int, j: int|
            #![trigger s[j], s[i]]
            0 <= i && i + 1 == j && j < s.len() implies key(s[j]).cmp_spec(&key(s[i]))
            != Ordering::Less by {
            assert(keys[j].cmp_spec(&keys[i]) != Ordering::Less);
        }
    }
}

/// Sorted under the comparator that is the order of `T` itself means sorted.
pub proof fn lemma_sorted_by_own_order<T: Ord>(s: Seq<T>)
    ensures
        sorted_by(s, |a: T, b: T| a.cmp_spec(&b)) == sorted(s),
{
}

/// A sequence of at most one element is sorted, whatever the order.
pub proof fn lemma_short_is_sorted<T: Ord>(s: Seq<T>, ord: spec_fn(T, T) -> Ordering)
    requires
        s.len() <= 1,
    ensures
        sorted(s),
        sorted_by(s, ord),
{
}

/// For unsigned integers, sorted means that every element is at least its
/// predecessor.
pub proof fn lemma_sorted_u64(s: Seq<u64>)
    ensures
        sorted(s) <==> forall|i: int| #![trigger s[i]] 1 <= i < s.len() ==> s[i] >= s[i - 1],
{
    if sorted(s) {
        assert forall|i: int| #![trigger s[i]] 1 <= i < s.len() implies s[i] >= s[i - 1] by {
            assert(s[i].cmp_spec(&s[i - 1]) != Ordering::Less);
        }
    }
    if forall|i: int| #![trigger s[i]] 1 <= i < s.len() ==> s[i] >= s[i - 1] {
        assert forall|i: int, j: int|
            #![trigger s[j], s[i]]
            0 <= i && i + 1 == j && j < s.len() implies s[j].cmp_spec(&s[i])
            != Ordering::Less by {
            assert(s[j] >= s[j - 1]);
        }
    }
}

} // verus!
