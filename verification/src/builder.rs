//! The generic set builder: the second stage of the pipeline.
//!
//! The builder asks an element (flag) type two questions only: what is your
//! set representation, and how is a set combined with one more element.
//! [`FlagElement`] is those two answers, each as a mathematical model beside
//! its executable form; [`DefaultSet`] adds the build-from-sequence
//! capability, whose `set_from_iter` collects any element sequence into one
//! set value — by default through [`set_from_elems`], a left-to-right fold
//! seeded with the empty set.  An empty sequence yields the empty set
//! through the very same fold; zero elements are no special case.  Plain
//! unsigned integers answer the two questions as bitmask flag types: the
//! empty set is zero and combining is bitwise or.

use vstd::prelude::*;

verus! {

/// The capabilities of an element (flag) type: its canonical set
/// representation, the "no flags" value of that representation, and the
/// operation that combines a set with one more element, each as a
/// mathematical model beside its executable form.
pub trait FlagElement: Sized {
    /// The set representation that sequences of `Self` values collect into.
    type SetType;

    /// The "no flags" value of the set type.
    spec fn spec_empty() -> Self::SetType;

    /// What combining a set value with one more element yields.
    spec fn spec_combine(acc: Self::SetType, x: Self) -> Self::SetType;

    /// The empty set value.
    fn empty_set() -> (r: Self::SetType)
        ensures
            r == Self::spec_empty(),
    ;

    /// Combine a set value with one more element.
    fn combine(acc: Self::SetType, x: Self) -> (r: Self::SetType)
        ensures
            r == Self::spec_combine(acc, x),
    ;
}

/// The left-to-right fold of a sequence of elements into the element type's
/// set representation, seeded with the empty set.
pub open spec fn fold_set<E: FlagElement>(s: Seq<E>) -> E::SetType
    decreases s.len(),
{
    if s.len() == 0 {
        E::spec_empty()
    } else {
        E::spec_combine(fold_set(s.drop_last()), s.last())
    }
}

/// The executable side of the builder: the default way to get from an
/// element type to one value of its set type.
pub trait DefaultSet: FlagElement {
    /// Collect the given elements into one set value, folding them left to
    /// right through the combine operation, seeded with the empty set.
    fn set_from_iter(elems: Vec<Self>) -> (r: Self::SetType)
        ensures
            r == fold_set::<Self>(elems@),
    ;
}

/// The one fold every element type shares: an implementation's
/// `set_from_iter` may hand its elements here.  An empty vector yields the
/// empty set through the same fold, not through a special case.
pub fn set_from_elems<E: FlagElement>(elems: Vec<E>) -> (r: E::SetType)
    ensures
        r == fold_set::<E>(elems@),
{
    let ghost orig = elems@;
    let mut elems = elems;
    let mut acc = E::empty_set();
    let ghost mut j: int = 0;
    proof {
        assert(orig.take(0) =~= Seq::<E>::empty());
        assert(orig.skip(0) =~= orig);
    }
    while elems.len() > 0
        invariant
            0 <= j <= orig.len(),
            elems@ == orig.skip(j),
            acc == fold_set::<E>(orig.take(j)),
        decreases elems.len(),
    {
        let x = elems.remove(0);
        proof {
            assert(orig.skip(j)[0] == orig[j]);
            assert(orig.skip(j).remove(0) =~= orig.skip(j + 1));
            assert(orig.take(j + 1).drop_last() =~= orig.take(j));
            assert(orig.take(j + 1).last() == orig[j]);
        }
        acc = E::combine(acc, x);
        proof {
            j = j + 1;
        }
    }
    proof {
        assert(j == orig.len());
        assert(orig.take(j) =~= orig);
    }
    acc
}

/// `u32` as a bitmask flag type: a flag is a bit pattern, the empty set is
/// zero, and combining is bitwise or.
impl FlagElement for u32 {
    type SetType = u32;

    open spec fn spec_empty() -> u32 {
        0u32
    }

    open spec fn spec_combine(acc: u32, x: u32) -> u32 {
        acc | x
    }

    fn empty_set() -> (r: u32) {
        0
    }

    fn combine(acc: u32, x: u32) -> (r: u32) {
        acc | x
    }
}

impl DefaultSet for u32 {
    fn set_from_iter(elems: Vec<u32>) -> (r: u32) {
        set_from_elems::<u32>(elems)
    }
}

/// `u64` as a bitmask flag type: a flag is a bit pattern, the empty set is
/// zero, and combining is bitwise or.
impl FlagElement for u64 {
    type SetType = u64;

    open spec fn spec_empty() -> u64 {
        0u64
    }

    open spec fn spec_combine(acc: u64, x: u64) -> u64 {
        acc | x
    }

    fn empty_set() -> (r: u64) {
        0
    }

    fn combine(acc: u64, x: u64) -> (r: u64) {
        acc | x
    }
}

impl DefaultSet for u64 {
    fn set_from_iter(elems: Vec<u64>) -> (r: u64) {
        set_from_elems::<u64>(elems)
    }
}

} // verus!
