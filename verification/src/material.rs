//! What a surface decides once the host has done its arithmetic: whether a
//! ray leaves it, and by which law.

use crate::scalar::Scalar;
use crate::util::{draw, rand_f32, unit_scalar};
use crate::vector::Vec3;
use vstd::prelude::*;

verus! {

/// How a ray leaves glass.
#[derive(Clone, Copy, Debug, PartialEq, Eq, Structural)]
pub enum Bend {
    Reflect,
    Refract,
}

/// Glass reflects where it cannot refract (`ri_sin`, the refraction ratio
/// times the sine of the incidence angle, above one) and where its
/// reflectance is above the scalar drawn from the first seed component.
pub open spec fn spec_dielectric_bend(ri_sin: Scalar, reflectance: Scalar, seed_x: Scalar) -> Bend {
    if Scalar::one().less(ri_sin) || unit_scalar(draw(seed_x.bits)).less(reflectance) {
        Bend::Reflect
    } else {
        Bend::Refract
    }
}

pub fn dielectric_bend(ri_sin: Scalar, reflectance: Scalar, seed_x: Scalar) -> (b: Bend)
    ensures
        b == spec_dielectric_bend(ri_sin, reflectance, seed_x),
{
    if ri_sin.gt(Scalar::one()) || reflectance.gt(rand_f32(seed_x)) {
        Bend::Reflect
    } else {
        Bend::Refract
    }
}

/// Metal gives an outgoing ray where the perturbed reflection still points
/// away from the surface: `facing`, its dot product with the normal, is above
/// zero. Otherwise the ray is absorbed.
pub fn metal_scatters(facing: Scalar) -> (r: bool)
    ensures
        r == Scalar::zero().less(facing),
{
    facing.gt(Scalar::zero())
}

/// Whether every component is a zero of either sign: the sum of normal and
/// sample that has no direction, for which a diffuse surface takes its normal.
pub fn is_degenerate(sum: Vec3) -> (r: bool)
    ensures
        r == (sum.x.same(Scalar::zero()) && sum.y.same(Scalar::zero()) && sum.z.same(
            Scalar::zero(),
        )),
{
    sum.x.equals(Scalar::zero()) && sum.y.equals(Scalar::zero()) && sum.z.equals(Scalar::zero())
}

} // verus!
