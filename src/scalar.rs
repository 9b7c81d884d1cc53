use vstd::prelude::*;

verus! {

/// The arithmetic that elimination needs from a matrix entry.
///
/// Each operation is described by a spec function of the implementing type;
/// the zero test is exact: a value is zero only when it equals `zero_spec()`.
pub trait Scalar: Sized + Copy {
    spec fn zero_spec() -> Self;

    spec fn one_spec() -> Self;

    spec fn add_spec(a: Self, b: Self) -> Self;

    spec fn sub_spec(a: Self, b: Self) -> Self;

    spec fn mul_spec(a: Self, b: Self) -> Self;

    spec fn div_spec(a: Self, b: Self) -> Self;

    fn zero() -> (r: Self)
        ensures
            r == Self::zero_spec(),
    ;

    fn one() -> (r: Self)
        ensures
            r == Self::one_spec(),
    ;

    fn plus(&self, other: &Self) -> (r: Self)
        ensures
            r == Self::add_spec(*self, *other),
    ;

    fn minus(&self, other: &Self) -> (r: Self)
        ensures
            r == Self::sub_spec(*self, *other),
    ;

    fn times(&self, other: &Self) -> (r: Self)
        ensures
            r == Self::mul_spec(*self, *other),
    ;

    fn divide(&self, other: &Self) -> (r: Self)
        requires
            *other != Self::zero_spec(),
        ensures
            r == Self::div_spec(*self, *other),
    ;

    fn is_zero(&self) -> (r: bool)
        ensures
            r == (*self == Self::zero_spec()),
    ;
}

/// The facts of exact field arithmetic that the elimination results rest on.
///
/// They hold for rationals and for integers modulo a prime; they do not hold
/// for floating point, where `a - (a / p) * p` need not be zero.
pub open spec fn field_laws<T: Scalar>() -> bool {
    &&& T::one_spec() != T::zero_spec()
    &&& forall|a: T, p: T|
        p != T::zero_spec() ==> #[trigger] T::sub_spec(a, T::mul_spec(T::div_spec(a, p), p))
            == T::zero_spec()
    &&& forall|p: T|
        p != T::zero_spec() ==> #[trigger] T::mul_spec(p, T::div_spec(T::one_spec(), p))
            == T::one_spec()
    &&& forall|p: T| p != T::zero_spec() ==> #[trigger] T::div_spec(T::zero_spec(), p) == T::zero_spec()
    &&& T::div_spec(T::one_spec(), T::one_spec()) == T::one_spec()
    &&& forall|a: T| #[trigger] T::sub_spec(a, a) == T::zero_spec()
    &&& forall|a: T| #[trigger] T::sub_spec(a, T::zero_spec()) == a
    &&& forall|a: T| #[trigger] T::mul_spec(a, T::one_spec()) == a
    &&& forall|a: T| #[trigger] T::mul_spec(a, T::zero_spec()) == T::zero_spec()
    &&& forall|a: T| #[trigger] T::mul_spec(T::zero_spec(), a) == T::zero_spec()
}

} // verus!
