//! Generic collaborators with standard set and option semantics: ordered
//! sequence difference and intersection, and option flattening.

use vstd::prelude::*;
use vstd::std_specs::cmp::PartialEqSpec;

verus! {

/// Whether some element of `ys` equals `x`, under the type's own equality.
pub open spec fn contains_match<T: PartialEq>(ys: Seq<T>, x: T) -> bool {
    exists|j: int| 0 <= j < ys.len() && x.eq_spec(&ys[j])
}

/// The elements of `xs` that equal no element of `ys`, in `xs`'s order.
pub open spec fn spec_diff<T: PartialEq>(xs: Seq<T>, ys: Seq<T>) -> Seq<T>
    decreases xs.len(),
{
    if xs.len() == 0 {
        Seq::empty()
    } else {
        let rest = spec_diff(xs.drop_last(), ys);
        if contains_match(ys, xs.last()) {
            rest
        } else {
            rest.push(xs.last())
        }
    }
}

/// The elements of `xs` that equal some element of `ys`, in `xs`'s order,
/// with no guarantee of deduplication beyond the input's.
pub open spec fn spec_intersect<T: PartialEq>(xs: Seq<T>, ys: Seq<T>) -> Seq<T>
    decreases xs.len(),
{
    if xs.len() == 0 {
        Seq::empty()
    } else {
        let rest = spec_intersect(xs.drop_last(), ys);
        if contains_match(ys, xs.last()) {
            rest.push(xs.last())
        } else {
            rest
        }
    }
}

/// Scans `ys` for an element equal to `x`.
fn contains_value<T: PartialEq + Copy>(ys: &[T], x: T) -> (r: bool)
    ensures
        T::obeys_eq_spec() ==> (r <==> contains_match(ys@, x)),
{
    let mut found = false;
    let mut j: usize = 0;
    while j < ys.len()
        invariant
            j <= ys@.len(),
            T::obeys_eq_spec() ==> (found <==> exists|jj: int|
                0 <= jj < j && x.eq_spec(&ys@[jj])),
        decreases ys@.len() - j,
    {
        if x == ys[j] {
            found = true;
        }
        j = j + 1;
    }
    found
}

/// The set-style difference: every element of `xs` that occurs nowhere in
/// `ys`, preserving `xs`'s order.
pub fn diff<T: PartialEq + Copy>(xs: &[T], ys: &[T]) -> (r: Vec<T>)
    ensures
        T::obeys_eq_spec() ==> r@ == spec_diff(xs@, ys@),
        r@.len() <= xs@.len(),
{
    let mut r: Vec<T> = Vec::new();
    let mut i: usize = 0;
    while i < xs.len()
        invariant
            i <= xs@.len(),
            r@.len() <= i,
            T::obeys_eq_spec() ==> r@ == spec_diff(xs@.take(i as int), ys@),
        decreases xs@.len() - i,
    {
        let x = xs[i];
        if !contains_value(ys, x) {
            r.push(x);
        }
        proof {
            assert(xs@.take(i + 1).drop_last() =~= xs@.take(i as int));
            assert(xs@.take(i + 1).last() == xs@[i as int]);
        }
        i = i + 1;
    }
    proof {
        assert(xs@.take(xs@.len() as int) =~= xs@);
    }
    r
}

/// The set-style intersection: every element of `xs` that also occurs in
/// `ys`, preserving `xs`'s order.
pub fn intersect<T: PartialEq + Copy>(xs: &[T], ys: &[T]) -> (r: Vec<T>)
    ensures
        T::obeys_eq_spec() ==> r@ == spec_intersect(xs@, ys@),
        r@.len() <= xs@.len(),
{
    let mut r: Vec<T> = Vec::new();
    let mut i: usize = 0;
    while i < xs.len()
        invariant
            i <= xs@.len(),
            r@.len() <= i,
            T::obeys_eq_spec() ==> r@ == spec_intersect(xs@.take(i as int), ys@),
        decreases xs@.len() - i,
    {
        let x = xs[i];
        if contains_value(ys, x) {
            r.push(x);
        }
        proof {
            assert(xs@.take(i + 1).drop_last() =~= xs@.take(i as int));
            assert(xs@.take(i + 1).last() == xs@[i as int]);
        }
        i = i + 1;
    }
    proof {
        assert(xs@.take(xs@.len() as int) =~= xs@);
    }
    r
}

/// The standard monadic flatten over nested options.
pub trait Flatten<T> {
    /// What flattening yields: the inner option, or nothing.
    spec fn spec_flatten(self) -> Option<T>;

    /// Collapses one level of nesting.
    fn flatten(self) -> (r: Option<T>)
        ensures
            r == self.spec_flatten(),
    ;
}

impl<T> Flatten<T> for Option<Option<T>> {
    open spec fn spec_flatten(self) -> Option<T> {
        match self {
            None => None,
            Some(v) => v,
        }
    }

    fn flatten(self) -> (r: Option<T>) {
        match self {
            None => None,
            Some(v) => v,
        }
    }
}

} // verus!
