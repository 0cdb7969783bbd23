//! Three-component vectors of scalars.
//!
//! A [`Vec3`] carries a position, a direction or a normal. The operations here
//! are those that need no arithmetic: building a vector, reversing it, and
//! testing whether all of its components are close to zero.
use vstd::prelude::*;
use crate::scalar::{Scalar, ONE_BITS};

verus! {

#[derive(Clone, Copy, Debug, PartialEq, Eq, Structural)]
pub struct Vec3 {
    pub x: Scalar,
    pub y: Scalar,
    pub z: Scalar,
}

impl Vec3 {
    /// All three components are within `tolerance` of zero, the bound excluded.
    pub open spec fn tiny(&self, tolerance: Scalar) -> bool {
        &&& self.x.absolute().below(tolerance)
        &&& self.y.absolute().below(tolerance)
        &&& self.z.absolute().below(tolerance)
    }

    /// The vector with the sign of every component flipped.
    pub open spec fn reversed(self) -> Vec3 {
        Vec3 { x: self.x.negated(), y: self.y.negated(), z: self.z.negated() }
    }

    pub fn new(x: Scalar, y: Scalar, z: Scalar) -> (v: Vec3)
        ensures
            v == (Vec3 { x, y, z }),
    {
        Vec3 { x, y, z }
    }

    /// The point `(0, 0, 0)`.
    pub fn origin() -> (v: Vec3)
        ensures
            v.x.bits == 0,
            v.y.bits == 0,
            v.z.bits == 0,
    {
        Vec3 { x: Scalar::zero(), y: Scalar::zero(), z: Scalar::zero() }
    }

    /// The direction `(1, 0, 0)`.
    pub fn unit_x() -> (v: Vec3)
        ensures
            v.x.bits == ONE_BITS,
            v.y.bits == 0,
            v.z.bits == 0,
    {
        Vec3 { x: Scalar::one(), y: Scalar::zero(), z: Scalar::zero() }
    }

    /// The direction `(0, 1, 0)`.
    pub fn unit_y() -> (v: Vec3)
        ensures
            v.x.bits == 0,
            v.y.bits == ONE_BITS,
            v.z.bits == 0,
    {
        Vec3 { x: Scalar::zero(), y: Scalar::one(), z: Scalar::zero() }
    }

    /// The direction `(0, 0, 1)`.
    pub fn unit_z() -> (v: Vec3)
        ensures
            v.x.bits == 0,
            v.y.bits == 0,
            v.z.bits == ONE_BITS,
    {
        Vec3 { x: Scalar::zero(), y: Scalar::zero(), z: Scalar::one() }
    }

    /// Whether every component lies strictly between `-tolerance` and
    /// `tolerance`. A NaN component, or a NaN tolerance, makes it false.
    #[verifier::when_used_as_spec(tiny)]
    pub fn is_tiny(&self, tolerance: Scalar) -> (b: bool)
        ensures
            b == self.tiny(tolerance),
    {
        self.x.abs().lt(tolerance) && self.y.abs().lt(tolerance) && self.z.abs().lt(tolerance)
    }

    /// Whether a random point is kept as a sample of the unit ball: its
    /// squared length is at most one.
    pub fn in_unit_ball(squared_length: Scalar) -> (b: bool)
        ensures
            b == squared_length.at_most(Scalar { bits: ONE_BITS }),
    {
        squared_length.le(Scalar::one())
    }

    /// The opposite vector.
    #[verifier::when_used_as_spec(reversed)]
    pub fn neg(self) -> (v: Vec3)
        ensures
            v == self.reversed(),
    {
        Vec3 { x: self.x.neg(), y: self.y.neg(), z: self.z.neg() }
    }
}

} // verus!
