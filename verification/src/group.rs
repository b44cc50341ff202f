//! The operations that `G1` and `G2` share.
use vstd::prelude::*;
use crate::fp::Fr;

verus! {

/// A group of curve points.
pub trait Group: Send + Sync + Copy + Clone + PartialEq + Eq + Sized + core::ops::Add<
    Self,
    Output = Self,
> + core::ops::Sub<Self, Output = Self> + core::ops::Neg<Output = Self> + core::ops::Mul<
    Fr,
    Output = Self,
> {
    /// Whether the point is the point at infinity.
    spec fn spec_is_zero(&self) -> bool;

    /// The point at infinity.
    fn zero() -> (r: Self)
        ensures
            r.spec_is_zero(),
    ;

    /// The generator of the group.
    fn one() -> Self;

    /// A random multiple of the generator.
    fn random<R: rand::Rng>(rng: &mut R) -> Self;

    /// Whether the point is the point at infinity.
    fn is_zero(&self) -> (r: bool)
        ensures
            r == self.spec_is_zero(),
    ;

    /// Rewrites the point with `z = 1`, unless it is at infinity or its `z` has no inverse.
    fn normalize(&mut self);
}

} // verus!
