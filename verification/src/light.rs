//! Point lights.

use vstd::prelude::*;
use crate::scalar::Scalar;
use crate::vector::Vector3;

verus! {

/// A point light.
#[derive(Clone, Copy, Debug, PartialEq, Eq, Structural)]
pub struct Light {
    pub position: Vector3,
    pub color: Vector3,
    pub intensity: Scalar,
}

impl Light {
    /// A light at `position`.
    pub fn new(position: Vector3, color: Vector3, intensity: Scalar) -> (l: Light)
        ensures
            l == (Light { position, color, intensity }),
    {
        Light { position, color, intensity }
    }
}

} // verus!
