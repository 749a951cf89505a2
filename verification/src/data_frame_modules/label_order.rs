use std::cmp::Ordering;
use vstd::prelude::*;
use vstd::std_specs::cmp::OrdSpec;

verus! {

/// `a` does not come after `b` in the order of the labels.
pub open spec fn label_le<T: Ord>(a: T, b: T) -> bool {
    a.cmp_spec(&b) != Ordering::Greater
}

/// Comparing two labels at run time gives what `cmp_spec` says of them.
pub open spec fn compares_as_specified<T: Ord>() -> bool {
    T::obeys_cmp_spec()
}

/// The labels are totally ordered: comparing at run time agrees with
/// `label_le`, any two labels are comparable, and `label_le` is transitive.
pub open spec fn orders_totally<T: Ord>() -> bool {
    &&& compares_as_specified::<T>()
    &&& forall|a: T, b: T| #[trigger] label_le(a, b) || label_le(b, a)
    &&& forall|a: T, b: T, c: T|
        #[trigger] label_le(a, b) && #[trigger] label_le(b, c) ==> label_le(a, c)
}

/// Whether `a` comes strictly after `b` in the order of the labels.
pub fn exceeds<T: Ord>(a: &T, b: &T) -> (r: bool)
    ensures
        compares_as_specified::<T>() ==> r == !label_le(*a, *b),
{
    match a.cmp(b) {
        Ordering::Greater => true,
        _ => false,
    }
}

/// `usize` labels are totally ordered, by `<=`.
pub proof fn lemma_usize_orders_totally()
    ensures
        orders_totally::<usize>(),
        forall|a: usize, b: usize| label_le(a, b) <==> a <= b,
{
}

} // verus!
