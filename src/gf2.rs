use vstd::prelude::*;
use crate::scalar::{Scalar, field_laws};

verus! {

/// An element of the two-element field: addition and subtraction are
/// exclusive or, multiplication is and.
#[derive(Debug, Clone, Copy, PartialEq, Eq, Structural)]
pub struct Gf2(pub bool);

impl Scalar for Gf2 {
    open spec fn zero_spec() -> Self {
        Gf2(false)
    }

    open spec fn one_spec() -> Self {
        Gf2(true)
    }

    open spec fn add_spec(a: Self, b: Self) -> Self {
        Gf2(a.0 != b.0)
    }

    open spec fn sub_spec(a: Self, b: Self) -> Self {
        Gf2(a.0 != b.0)
    }

    open spec fn mul_spec(a: Self, b: Self) -> Self {
        Gf2(a.0 && b.0)
    }

    /// Division by the only nonzero element, one, leaves `a` as it is.
    open spec fn div_spec(a: Self, b: Self) -> Self {
        Gf2(a.0 && b.0)
    }

    fn zero() -> (r: Self) {
        Gf2(false)
    }

    fn one() -> (r: Self) {
        Gf2(true)
    }

    fn plus(&self, other: &Self) -> (r: Self) {
        Gf2(self.0 != other.0)
    }

    fn minus(&self, other: &Self) -> (r: Self) {
        Gf2(self.0 != other.0)
    }

    fn times(&self, other: &Self) -> (r: Self) {
        Gf2(self.0 && other.0)
    }

    fn divide(&self, other: &Self) -> (r: Self) {
        Gf2(self.0 && other.0)
    }

    fn is_zero(&self) -> (r: bool) {
        !self.0
    }
}

/// The two-element field meets every law that the elimination results
/// rest on.
pub proof fn lemma_gf2_field_laws()
    ensures
        field_laws::<Gf2>(),
{
}

} // verus!
