//! The decision kernel of a stochastic path tracer.
//!
//! Every scalar the kernel looks at is an IEEE-754 binary32 datum carried as its
//! bit pattern, so that ordering, selection and hashing are exact integer logic.
//! Arithmetic on scalars is the host's business; what to do with its results is
//! decided here.

use crate::scalar::Scalar;
use vstd::prelude::*;

pub mod color;
pub mod depth;
pub mod frame;
pub mod hittable;
pub mod integrator;
pub mod material;
pub mod rounding;
pub mod scalar;
pub mod util;
pub mod vector;

verus! {

/// What a render is configured with. Read-only while it runs.
#[derive(Clone, Copy, Debug, PartialEq, Eq, Structural)]
pub struct ShaderConstants {
    pub width: u32,
    pub height: u32,
    pub aa_stages: u32,
    pub bounce_limit: i32,
    pub focus_point: Scalar,
}

impl ShaderConstants {
    /// How many pixels a frame holds.
    pub open spec fn pixels(self) -> nat {
        (self.width * self.height) as nat
    }
}

} // verus!
