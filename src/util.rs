use vstd::prelude::*;

verus! {

/// Equality up to a small tolerance, for values built from floating-point numbers.
pub trait FuzzyEq<T: Clone> {
    /// Whether `self` and `other` agree within the tolerance.
    fn fuzzy_eq(&self, other: T) -> bool;

    /// The negation of `fuzzy_eq`.
    fn fuzzy_ne(&self, other: T) -> bool;
}

} // verus!
