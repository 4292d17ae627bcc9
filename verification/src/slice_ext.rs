//! Sortedness checks, checked and unchecked splitting, and element copies
//! on slices.

use crate::private::SliceExtSealed;
use core::cmp::Ordering;
use vstd::prelude::*;
use vstd::std_specs::cmp::OrdSpec;

verus! {

/// Whether the order on `T` is the one its `cmp_spec` describes.
pub open spec fn lawful<T: Ord>() -> bool {
    T::obeys_cmp_spec()
}

/// No element compares as less than the one before it, under `ord`: for
/// every adjacent pair of positions `i`, `j`, the later element against the
/// earlier is not `Less`.
pub open spec fn sorted_by<T>(s: Seq<T>, ord: spec_fn(T, T) -> Ordering) -> bool {
    forall|i: int, j: int|
        #![trigger s[j], s[i]]
        0 <= i && i + 1 == j && j < s.len() ==> ord(s[j], s[i]) != Ordering::Less
}

/// No element is less than the one before it, under the order of `T`.
pub open spec fn sorted<T: Ord>(s: Seq<T>) -> bool {
    forall|i: int, j: int|
        #![trigger s[j], s[i]]
        0 <= i && i + 1 == j && j < s.len() ==> s[j].cmp_spec(&s[i]) != Ordering::Less
}

/// No element's key is less than the key of the one before it.
pub open spec fn sorted_by_key<T, K: Ord>(s: Seq<T>, key: spec_fn(T) -> K) -> bool {
    forall|i: int, j: int|
        #![trigger s[j], s[i]]
        0 <= i && i + 1 == j && j < s.len() ==> key(s[j]).cmp_spec(&key(s[i])) != Ordering::Less
}

/// The comparator `f` may be asked about `s[i]` against its predecessor.
pub open spec fn askable_at<T, F: FnMut(&T, &T) -> Ordering>(f: F, s: Seq<T>, i: int) -> bool {
    call_requires(f, (&s[i], &s[i - 1]))
}

/// The comparator `f` can give the answer `o` when asked about `s[i]` against
/// its predecessor.
pub open spec fn answers_at<T, F: FnMut(&T, &T) -> Ordering>(
    f: F,
    s: Seq<T>,
    i: int,
    o: Ordering,
) -> bool {
    call_ensures(f, (&s[i], &s[i - 1]), o)
}

/// The comparator `f` can answer something other than `Less` when asked about
/// `s[i]` against its predecessor.
pub open spec fn in_order_at<T, F: FnMut(&T, &T) -> Ordering>(f: F, s: Seq<T>, i: int) -> bool {
    exists|o: Ordering| o != Ordering::Less && #[trigger] answers_at(f, s, i, o)
}

/// Comparing `s[i]` against its predecessor by the order of `T` can give an
/// answer other than `Less`.
pub open spec fn own_order_allows_at<T: Ord>(s: Seq<T>, i: int) -> bool {
    in_order_at(T::cmp, s, i)
}

/// Comparing `s[i]` against its predecessor by the order of `T` can give the
/// answer `Less`.
pub open spec fn own_order_breaks_at<T: Ord>(s: Seq<T>, i: int) -> bool {
    answers_at(T::cmp, s, i, Ordering::Less)
}

/// A comparator that computes `ord` can only answer what `ord` says.
pub open spec fn computes<T, F: FnMut(&T, &T) -> Ordering>(
    f: F,
    ord: spec_fn(T, T) -> Ordering,
) -> bool {
    forall|a: T, b: T, o: Ordering| #[trigger] call_ensures(f, (&a, &b), o) ==> o == ord(a, b)
}

/// The key function `f` may be asked about every element of `s`.
pub open spec fn keyable<T, K, F: FnMut(&T) -> K>(f: F, s: Seq<T>) -> bool {
    forall|i: int| #![trigger s[i]] 0 <= i < s.len() ==> call_requires(f, (&s[i],))
}

/// A key function that computes `key` can only answer what `key` says.
pub open spec fn yields<T, K, F: FnMut(&T) -> K>(f: F, key: spec_fn(T) -> K) -> bool {
    forall|a: T, k: K| #[trigger] call_ensures(f, (&a,), k) ==> k == key(a)
}

/// The key function `f` can give keys for `s[i]` and its predecessor that the
/// order of `K` can compare, the first against the second, with the answer `o`.
pub open spec fn keys_compare_at<T, K: Ord, F: FnMut(&T) -> K>(
    f: F,
    s: Seq<T>,
    i: int,
    o: Ordering,
) -> bool {
    exists|ka: K, kb: K|
        #![trigger call_ensures(K::cmp, (&ka, &kb), o)]
        call_ensures(f, (&s[i],), ka) && call_ensures(f, (&s[i - 1],), kb) && call_ensures(
            K::cmp,
            (&ka, &kb),
            o,
        )
}

/// The keys of `s[i]` and its predecessor can compare as something other
/// than `Less`.
pub open spec fn keys_in_order_at<T, K: Ord, F: FnMut(&T) -> K>(f: F, s: Seq<T>, i: int) -> bool {
    exists|o: Ordering| o != Ordering::Less && #[trigger] keys_compare_at(f, s, i, o)
}

/// The keys of `s[i]` and its predecessor can compare as `Less`.
pub open spec fn keys_reversed_at<T, K: Ord, F: FnMut(&T) -> K>(f: F, s: Seq<T>, i: int) -> bool {
    keys_compare_at(f, s, i, Ordering::Less)
}

proof fn lemma_less_breaks<T, F: FnMut(&T, &T) -> Ordering>(f: F, s: Seq<T>, k: int)
    requires
        1 <= k < s.len(),
        answers_at(f, s, k, Ordering::Less),
    ensures
        forall|ord: spec_fn(T, T) -> Ordering|
            computes(f, ord) ==> !#[trigger] sorted_by(s, ord),
{
    assert forall|ord: spec_fn(T, T) -> Ordering| computes(f, ord) implies !#[trigger] sorted_by(
        s,
        ord,
    ) by {
        assert(ord(s[k], s[k - 1]) == Ordering::Less);
    }
}

proof fn lemma_all_in_order<T, F: FnMut(&T, &T) -> Ordering>(f: F, s: Seq<T>)
    requires
        forall|i: int| 1 <= i < s.len() ==> #[trigger] in_order_at(f, s, i),
    ensures
        forall|ord: spec_fn(T, T) -> Ordering| computes(f, ord) ==> #[trigger] sorted_by(s, ord),
{
    assert forall|ord: spec_fn(T, T) -> Ordering| computes(f, ord) implies #[trigger] sorted_by(
        s,
        ord,
    ) by {
        assert forall|i: int, j: int|
            #![trigger s[j], s[i]]
            0 <= i && i + 1 == j && j < s.len() implies ord(s[j], s[i]) != Ordering::Less by {
            assert(in_order_at(f, s, j));
        }
    }
}

proof fn lemma_reversed_keys_break<T, K: Ord, F: FnMut(&T) -> K>(f: F, s: Seq<T>, k: int)
    requires
        lawful::<K>(),
        1 <= k < s.len(),
        keys_reversed_at(f, s, k),
    ensures
        forall|key: spec_fn(T) -> K| yields(f, key) ==> !#[trigger] sorted_by_key(s, key),
{
    assert forall|key: spec_fn(T) -> K| yields(f, key) implies !#[trigger] sorted_by_key(
        s,
        key,
    ) by {
        assert(key(s[k]).cmp_spec(&key(s[k - 1])) == Ordering::Less);
    }
}

proof fn lemma_all_keys_in_order<T, K: Ord, F: FnMut(&T) -> K>(f: F, s: Seq<T>)
    requires
        lawful::<K>(),
        forall|i: int| 1 <= i < s.len() ==> #[trigger] keys_in_order_at(f, s, i),
    ensures
        forall|key: spec_fn(T) -> K| yields(f, key) ==> #[trigger] sorted_by_key(s, key),
{
    assert forall|key: spec_fn(T) -> K| yields(f, key) implies #[trigger] sorted_by_key(
        s,
        key,
    ) by {
        assert forall|i: int, j: int|
            #![trigger s[j], s[i]]
            0 <= i && i + 1 == j && j < s.len() implies key(s[j]).cmp_spec(&key(s[i]))
            != Ordering::Less by {
            assert(keys_in_order_at(f, s, j));
        }
    }
}

/// `v` after the `n` elements from `s` on were moved onto the positions
/// from `t` on.
pub open spec fn moved_within<T>(v: Seq<T>, s: int, t: int, n: int) -> Seq<T> {
    Seq::new(
        v.len(),
        |i: int|
            if t <= i < t + n {
                v[i - t + s]
            } else {
                v[i]
            },
    )
}

/// `dst` with its front replaced by the front of `src`, as far as both reach.
pub open spec fn overlaid<T>(dst: Seq<T>, src: Seq<T>) -> Seq<T> {
    Seq::new(
        dst.len(),
        |i: int|
            if i < src.len() {
                src[i]
            } else {
                dst[i]
            },
    )
}

pub trait SliceExt: SliceExtSealed {
    type Inner;

    /// The elements, in order. For a slice `v` this is `v@`; a proof about a
    /// call may have to say so (`assert(v.elems() == v@)`) before the clauses
    /// that quantify over a comparator or a key function apply.
    spec fn elems(&self) -> Seq<Self::Inner>;

    /// Whether the elements are in non-decreasing order.
    ///
    /// Where the order on the elements is the one its `cmp_spec` describes,
    /// the result is exactly `sorted(s)`. For any other order the first two
    /// clauses say what its `cmp` must have answered.
    fn is_sorted(&self) -> (r: bool) where Self::Inner: Ord
        ensures
            r ==> forall|i: int|
                1 <= i < self.elems().len() ==> #[trigger] own_order_allows_at(self.elems(), i),
            !r ==> exists|i: int|
                1 <= i < self.elems().len() && #[trigger] own_order_breaks_at(self.elems(), i),
            lawful::<Self::Inner>() ==> r == sorted(self.elems()),
            self.elems().len() <= 1 ==> r,
    ;

    /// Whether no element compares as `Less` against its predecessor.
    ///
    /// `f` is called as `f(&s[i], &s[i - 1])` for `i` from 1 upwards, until the
    /// first answer `Less`. It need not be a function of its arguments: the
    /// first two clauses hold of whatever it answered. Where it computes
    /// `ord`, the result is exactly `sorted_by(s, ord)`.
    fn is_sorted_by<F: FnMut(&Self::Inner, &Self::Inner) -> Ordering>(&self, f: F) -> (r: bool)
        requires
            forall|i: int| 1 <= i < self.elems().len() ==> #[trigger] askable_at(f, self.elems(), i),
        ensures
            r ==> forall|i: int|
                1 <= i < self.elems().len() ==> #[trigger] in_order_at(f, self.elems(), i),
            !r ==> exists|i: int|
                1 <= i < self.elems().len() && #[trigger] answers_at(
                    f,
                    self.elems(),
                    i,
                    Ordering::Less,
                ),
            forall|ord: spec_fn(Self::Inner, Self::Inner) -> Ordering|
                #![trigger computes(f, ord)]
                computes(f, ord) ==> r == sorted_by(self.elems(), ord),
            self.elems().len() <= 1 ==> r,
    ;

    /// Whether no element's key is less than the key of its predecessor.
    ///
    /// `f` is asked for the key of `s[i]` and then of `s[i - 1]`, for `i` from
    /// 1 upwards, until the first pair out of order; on fewer than two
    /// elements it is not asked at all. Where it computes `key`, and the
    /// order on keys is the one its `cmp_spec` describes, the result is
    /// exactly `sorted_by_key(s, key)`.
    fn is_sorted_by_key<F: FnMut(&Self::Inner) -> K, K: Ord>(&self, f: F) -> (r: bool)
        requires
            self.elems().len() >= 2 ==> keyable(f, self.elems()),
        ensures
            r ==> forall|i: int|
                1 <= i < self.elems().len() ==> #[trigger] keys_in_order_at(f, self.elems(), i),
            !r ==> exists|i: int|
                1 <= i < self.elems().len() && #[trigger] keys_reversed_at(f, self.elems(), i),
            lawful::<K>() ==> forall|key: spec_fn(Self::Inner) -> K|
                #![trigger yields(f, key)]
                yields(f, key) ==> r == sorted_by_key(self.elems(), key),
            self.elems().len() <= 1 ==> r,
    ;

    /// The two halves `[0, k)` and `[k, len)`, or `None` exactly when `k` is
    /// past the end. `k == len` is accepted and gives an empty second half.
    fn try_split_at(&self, k: usize) -> (r: Option<(&Self, &Self)>)
        ensures
            r is Some <==> k <= self.elems().len(),
            r matches Some((a, b)) ==> {
                &&& a.elems() == self.elems().subrange(0, k as int)
                &&& b.elems() == self.elems().subrange(k as int, self.elems().len() as int)
                &&& a.elems() + b.elems() == self.elems()
                &&& a.elems().len() == k
                &&& b.elems().len() == self.elems().len() - k
            },
    ;

    /// As `try_split_at`, with both halves writable. What the caller leaves
    /// in the halves, first then second, is what the slice holds afterwards;
    /// a refused split leaves the slice as it was.
    fn try_split_at_mut(&mut self, k: usize) -> (r: Option<(&mut Self, &mut Self)>)
        ensures
            r is Some <==> k <= old(self).elems().len(),
            r is None ==> final(self).elems() == old(self).elems(),
            r matches Some((a, b)) ==> {
                &&& a.elems() == old(self).elems().subrange(0, k as int)
                &&& b.elems() == old(self).elems().subrange(
                    k as int,
                    old(self).elems().len() as int,
                )
                &&& a.elems() + b.elems() == old(self).elems()
                &&& final(self).elems() == final(a).elems() + final(b).elems()
            },
    ;

    /// The two halves `[0, k)` and `[k, len)`, for a `k` that the caller knows
    /// to be within the slice.
    fn split_at_unchecked(&self, k: usize) -> (r: (&Self, &Self))
        requires
            k <= self.elems().len(),
        ensures
            r.0.elems() == self.elems().subrange(0, k as int),
            r.1.elems() == self.elems().subrange(k as int, self.elems().len() as int),
            r.0.elems() + r.1.elems() == self.elems(),
    ;

    /// As `split_at_unchecked`, with both halves writable.
    fn split_at_unchecked_mut(&mut self, k: usize) -> (r: (&mut Self, &mut Self))
        requires
            k <= old(self).elems().len(),
        ensures
            r.0.elems() == old(self).elems().subrange(0, k as int),
            r.1.elems() == old(self).elems().subrange(k as int, old(self).elems().len() as int),
            r.0.elems() + r.1.elems() == old(self).elems(),
            final(self).elems() == final(r.0).elems() + final(r.1).elems(),
    ;

    /// Fills the whole slice from the front of `src`, a separate region that
    /// holds at least as many elements. The source is handed over as a slice
    /// that starts where the data starts; what lies past the length of this
    /// slice is not read.
    fn copy_from_ptr(&mut self, src: &Self) where Self::Inner: Copy
        requires
            old(self).elems().len() <= src.elems().len(),
        ensures
            final(self).elems() == src.elems().subrange(0, old(self).elems().len() as int),
    ;

    /// Moves the `n` elements at `[s, s + n)` onto `[t, t + n)` within the
    /// slice. The ranges may overlap: every destination ends up with what its
    /// source held before the call, and the rest is untouched.
    fn copy_x(&mut self, s: usize, t: usize, n: usize) where Self::Inner: Copy
        requires
            s + n <= old(self).elems().len(),
            t + n <= old(self).elems().len(),
        ensures
            final(self).elems() == moved_within(old(self).elems(), s as int, t as int, n as int),
    ;

    /// Copies as many elements as both slices have, from the front of
    /// `other` onto the front of this slice, and leaves the rest alone.
    fn copy_from_x(&mut self, other: &Self) where Self::Inner: Copy
        ensures
            final(self).elems() == overlaid(old(self).elems(), other.elems()),
    ;
}

impl<A> SliceExtSealed for [A] {

}

impl<A> SliceExt for [A] {
    type Inner = A;

    open spec fn elems(&self) -> Seq<A> {
        self@
    }

    fn is_sorted(&self) -> (r: bool) where A: Ord {
        let r = SliceExt::is_sorted_by(self, Ord::cmp);
        proof {
            if lawful::<A>() {
                let ord = |a: A, b: A| a.cmp_spec(&b);
                assert(computes(A::cmp, ord));
                assert(sorted_by(self@, ord) == sorted(self@));
            }
            if !r {
                let i = choose|i: int|
                    1 <= i < self@.len() && #[trigger] answers_at(A::cmp, self@, i, Ordering::Less);
                assert(own_order_breaks_at(self@, i));
            }
        }
        r
    }

    #[verifier::loop_isolation(false)]
    fn is_sorted_by<F: FnMut(&A, &A) -> Ordering>(&self, mut f: F) -> (r: bool) {
        broadcast use vstd::function::group_function_axioms;

        let n: usize = self.len();
        // `j` is the index of the predecessor in the pair under test.
        let mut j: usize = 0;
        let ghost f0 = f;
        assert(self.elems() == self@);
        while j + 1 < n
            invariant
                n == self@.len(),
                j == 0 || j < n,
                f == f0,
                forall|i: int| 1 <= i < self@.len() ==> #[trigger] askable_at(f0, self@, i),
                forall|i: int| 1 <= i <= j && i < n ==> #[trigger] in_order_at(f0, self@, i),
            decreases n - j,
        {
            assert(askable_at(f0, self@, j + 1));
            let o = f(&self[j + 1], &self[j]);
            assert(answers_at(f0, self@, j + 1, o));
            match o {
                Ordering::Less => {
                    proof {
                        lemma_less_breaks(f0, self@, j + 1);
                    }
                    return false;
                },
                _ => {},
            }
            assert(in_order_at(f0, self@, j + 1));
            j += 1;
        }
        proof {
            lemma_all_in_order(f0, self@);
        }
        true
    }

    #[verifier::loop_isolation(false)]
    fn is_sorted_by_key<F: FnMut(&A) -> K, K: Ord>(&self, mut f: F) -> (r: bool) {
        broadcast use vstd::function::group_function_axioms;

        let n: usize = self.len();
        // `j` is the index of the predecessor in the pair under test.
        let mut j: usize = 0;
        let ghost f0 = f;
        assert(self.elems() == self@);
        while j + 1 < n
            invariant
                n == self@.len(),
                j == 0 || j < n,
                f == f0,
                forall|i: int| 1 <= i <= j && i < n ==> #[trigger] keys_in_order_at(f0, self@, i),
            decreases n - j,
        {
            let ka = f(&self[j + 1]);
            let kb = f(&self[j]);
            let o = ka.cmp(&kb);
            assert(keys_compare_at(f0, self@, j + 1, o));
            match o {
                Ordering::Less => {
                    proof {
                        if lawful::<K>() {
                            lemma_reversed_keys_break(f0, self@, j + 1);
                        }
                    }
                    return false;
                },
                _ => {},
            }
            assert(keys_in_order_at(f0, self@, j + 1));
            j += 1;
        }
        proof {
            if lawful::<K>() {
                lemma_all_keys_in_order(f0, self@);
            }
        }
        true
    }

    fn try_split_at(&self, k: usize) -> (r: Option<(&Self, &Self)>) {
        if k > self.len() {
            None
        } else {
            let halves = SliceExt::split_at_unchecked(self, k);
            Some(halves)
        }
    }

    fn try_split_at_mut(&mut self, k: usize) -> (r: Option<(&mut Self, &mut Self)>) {
        if k > self.len() {
            None
        } else {
            let halves = SliceExt::split_at_unchecked_mut(self, k);
            Some(halves)
        }
    }

    fn split_at_unchecked(&self, k: usize) -> (r: (&Self, &Self)) {
        let r = self.split_at(k);
        assert(r.0@ + r.1@ =~= self@);
        r
    }

    fn split_at_unchecked_mut(&mut self, k: usize) -> (r: (&mut Self, &mut Self)) {
        let r = self.split_at_mut(k);
        assert(r.0@ + r.1@ =~= old(self)@);
        r
    }

    fn copy_from_ptr(&mut self, src: &Self) where A: Copy {
        let n: usize = self.len();
        copy_front(self, src, n);
        assert(self@ =~= src@.subrange(0, n as int));
    }

    fn copy_x(&mut self, s: usize, t: usize, n: usize) where A: Copy {
        let ghost before = self@;
        let ghost len: usize = self.len();
        if t <= s {
            let mut i: usize = 0;
            while i < n
                invariant
                    i <= n,
                    before.len() == len,
                    s + n <= len,
                    t + n <= len,
                    t <= s,
                    self@.len() == before.len(),
                    forall|p: int| t <= p < t + i ==> self@[p] == before[p - t + s],
                    forall|p: int|
                        0 <= p < before.len() && !(t <= p < t + i) ==> self@[p] == before[p],
                decreases n - i,
            {
                let v = self[s + i];
                self[t + i] = v;
                i += 1;
            }
        } else {
            let mut i: usize = n;
            while i > 0
                invariant
                    i <= n,
                    before.len() == len,
                    s + n <= len,
                    t + n <= len,
                    s < t,
                    self@.len() == before.len(),
                    forall|p: int| t + i <= p < t + n ==> self@[p] == before[p - t + s],
                    forall|p: int|
                        0 <= p < before.len() && !(t + i <= p < t + n) ==> self@[p] == before[p],
                decreases i,
            {
                i -= 1;
                let v = self[s + i];
                self[t + i] = v;
            }
        }
        assert(self@ =~= moved_within(before, s as int, t as int, n as int));
    }

    fn copy_from_x(&mut self, other: &Self) where A: Copy {
        let a: usize = self.len();
        let b: usize = other.len();
        let l: usize = if a < b {
            a
        } else {
            b
        };
        copy_front(self, other, l);
        assert(self@ =~= overlaid(old(self)@, other@));
    }
}

/// Copies the first `l` elements of `src` onto the first `l` of `dst`.
fn copy_front<A: Copy>(dst: &mut [A], src: &[A], l: usize)
    requires
        l <= old(dst)@.len(),
        l <= src@.len(),
    ensures
        final(dst)@.len() == old(dst)@.len(),
        forall|p: int| 0 <= p < l ==> final(dst)@[p] == src@[p],
        forall|p: int| l <= p < old(dst)@.len() ==> final(dst)@[p] == old(dst)@[p],
{
    let mut i: usize = 0;
    while i < l
        invariant
            i <= l,
            l <= src@.len(),
            l <= dst@.len(),
            dst@.len() == old(dst)@.len(),
            forall|p: int| 0 <= p < i ==> dst@[p] == src@[p],
            forall|p: int| i <= p < dst@.len() ==> dst@[p] == old(dst)@[p],
        decreases l - i,
    {
        let v = src[i];
        dst[i] = v;
        i += 1;
    }
}

} // verus!
