//! Bringing colours back into the displayable range.

use crate::scalar::{lemma_constants, Scalar};
use crate::vector::Vec3;
use vstd::prelude::*;

verus! {

/// A scalar held to `[0, 1]`: zero below zero, one above one, itself
/// otherwise. A NaN stays what it is.
pub open spec fn clamp_unit(s: Scalar) -> Scalar {
    s.clamp(Scalar::zero(), Scalar::one())
}

/// Values that can be held to the displayable range.
pub trait Saturate: Sized {
    /// The value with every channel held to `[0, 1]`.
    spec fn saturated(self) -> Self;

    fn saturate(self) -> (r: Self)
        ensures
            r == self.saturated(),
    ;
}

impl Saturate for Scalar {
    open spec fn saturated(self) -> Scalar {
        clamp_unit(self)
    }

    fn saturate(self) -> (r: Scalar) {
        proof {
            lemma_constants();
        }
        self.clamp(Scalar::zero(), Scalar::one())
    }
}

impl Saturate for Vec3 {
    open spec fn saturated(self) -> Vec3 {
        Vec3 { x: clamp_unit(self.x), y: clamp_unit(self.y), z: clamp_unit(self.z) }
    }

    fn saturate(self) -> (r: Vec3) {
        Vec3 { x: self.x.saturate(), y: self.y.saturate(), z: self.z.saturate() }
    }
}

/// A number that was held to the range lies in it, and one that lay in it is
/// left as it was.
pub proof fn lemma_clamp_unit(s: Scalar)
    ensures
        !s.nan() ==> Scalar::zero().at_most(clamp_unit(s)) && clamp_unit(s).at_most(Scalar::one()),
        Scalar::zero().at_most(s) && s.at_most(Scalar::one()) ==> clamp_unit(s) == s,
        s.nan() ==> clamp_unit(s) == s,
        clamp_unit(clamp_unit(s)) == clamp_unit(s),
{
    lemma_constants();
}

} // verus!
