//! The camera: an eye, a point it looks at, and the orthonormal basis that
//! turns directions in camera space into directions in the world.

use vstd::prelude::*;
use crate::scalar::Scalar;
use crate::vector::{Vector3, plane_length, spec_plane_length};

verus! {

/// A camera: where it stands, what it looks at, and its basis.
#[derive(Clone, Copy, Debug, PartialEq, Eq)]
pub struct Camera {
    /// Where the camera stands.
    pub eye: Vector3,
    /// The point the camera looks at.
    pub center: Vector3,
    pub up: Vector3,
    pub forward: Vector3,
    pub right: Vector3,
    /// Whether the camera has moved since [`Camera::is_changed`] was last
    /// asked.
    pub changed: bool,
}

/// The sine of the steepest angle, of 1.5 radians, at which the eye may stand
/// above or below the centre.
pub const STEEPEST_SINE: i64 = 997_494_987;

/// The cosine of the steepest angle.
pub const STEEPEST_COSINE: i64 = 70_737_202;

/// A turn by an angle, given by the cosine and the sine of the angle.
#[derive(Clone, Copy, Debug, PartialEq, Eq, Structural)]
pub struct Rotation {
    pub cos: Scalar,
    pub sin: Scalar,
}

/// The vector `(a, b)` of the plane, turned: `(a cos - b sin, a sin + b
/// cos)`.
pub open spec fn spec_turned(a: Scalar, b: Scalar, by: Rotation) -> (Scalar, Scalar) {
    (
        a.spec_mul(by.cos).spec_sub(b.spec_mul(by.sin)),
        a.spec_mul(by.sin).spec_add(b.spec_mul(by.cos)),
    )
}

/// The unit vector along `(a, b)`, and `(1, 0)` for the zero vector.
pub open spec fn spec_heading(a: Scalar, b: Scalar) -> (Scalar, Scalar) {
    let length = spec_plane_length(a, b);
    if length.raw == 0 {
        (Scalar::spec_one(), Scalar::spec_zero())
    } else {
        (a.spec_div(length), b.spec_div(length))
    }
}

/// The cosine and the sine of an angle of elevation, kept within the
/// steepest angle: beyond it the angle is the steepest one, upward if its
/// sine is not negative and downward else.
pub open spec fn spec_kept_level(cos: Scalar, sin: Scalar) -> (Scalar, Scalar) {
    if cos.raw < STEEPEST_COSINE {
        if sin.raw >= 0 {
            (Scalar { raw: STEEPEST_COSINE }, Scalar { raw: STEEPEST_SINE })
        } else {
            (Scalar { raw: STEEPEST_COSINE }, Scalar { raw: (-STEEPEST_SINE) as i64 })
        }
    } else {
        (cos, sin)
    }
}

/// Where the eye stands after it has gone round the centre, at its distance
/// from the centre, by `yaw` round the vertical and by `pitch` upward, not
/// beyond the steepest angle.
pub open spec fn spec_orbited_eye(eye: Vector3, center: Vector3, yaw: Rotation, pitch: Rotation)
    -> Vector3 {
    let relative = eye.spec_sub(center);
    let radius = relative.spec_length();
    let level = spec_plane_length(relative.x, relative.z);
    let heading = spec_heading(relative.x, relative.z);
    let turned = spec_turned(heading.0, heading.1, yaw);
    let raised = spec_turned(level.spec_div(radius), relative.y.spec_div(radius), pitch);
    let kept = spec_kept_level(raised.0, raised.1);
    center.spec_add(
        Vector3 {
            x: radius.spec_mul(kept.0).spec_mul(turned.0),
            y: radius.spec_mul(kept.1),
            z: radius.spec_mul(kept.0).spec_mul(turned.1),
        },
    )
}

/// The basis of a camera at `eye` that looks at `center`, with `up` as a
/// hint: the unit direction forward, the unit direction to the right, and
/// the direction upward that is at right angles to both.
pub open spec fn spec_basis(eye: Vector3, center: Vector3, up: Vector3) -> (
    Vector3,
    Vector3,
    Vector3,
) {
    let forward = center.spec_sub(eye).spec_normalized();
    let right = forward.spec_cross(up).spec_normalized();
    (forward, right, right.spec_cross(forward))
}

/// `p`, given in the basis `right`, `up`, backward, as a vector in the world.
pub open spec fn spec_to_world(p: Vector3, right: Vector3, up: Vector3, forward: Vector3)
    -> Vector3 {
    Vector3 {
        x: p.x.spec_mul(right.x).spec_add(p.y.spec_mul(up.x)).spec_sub(p.z.spec_mul(forward.x)),
        y: p.x.spec_mul(right.y).spec_add(p.y.spec_mul(up.y)).spec_sub(p.z.spec_mul(forward.y)),
        z: p.x.spec_mul(right.z).spec_add(p.y.spec_mul(up.z)).spec_sub(p.z.spec_mul(forward.z)),
    }
}

/// The vector `(a, b)` of the plane, turned.
pub fn turn(a: Scalar, b: Scalar, by: Rotation) -> (r: (Scalar, Scalar))
    ensures
        r == spec_turned(a, b, by),
{
    (a.mul(by.cos).sub(b.mul(by.sin)), a.mul(by.sin).add(b.mul(by.cos)))
}

impl Camera {
    /// The fields are those of a camera at `eye` that looks at `center`, with
    /// `up` as the hint for the upward direction.
    pub open spec fn looks_from(&self, eye: Vector3, center: Vector3, up: Vector3) -> bool {
        &&& self.eye == eye
        &&& self.center == center
        &&& self.forward == spec_basis(eye, center, up).0
        &&& self.right == spec_basis(eye, center, up).1
        &&& self.up == spec_basis(eye, center, up).2
    }

    /// `p`, given in camera space, as a vector in the world.
    pub open spec fn spec_basis_change(&self, p: Vector3) -> Vector3 {
        spec_to_world(p, self.right, self.up, self.forward)
    }

    /// Where the eye stands after moving `amount` toward the centre.
    pub open spec fn spec_zoomed_eye(&self, amount: Scalar) -> Vector3 {
        self.eye.spec_add(self.center.spec_sub(self.eye).spec_normalized().spec_scale(amount))
    }

    /// A camera at `eye` that looks at `center`.
    pub fn new(eye: Vector3, center: Vector3, up: Vector3) -> (camera: Camera)
        ensures
            camera.looks_from(eye, center, up),
            camera.changed,
    {
        let mut camera = Camera {
            eye,
            center,
            up,
            forward: Vector3::zero(),
            right: Vector3::zero(),
            changed: true,
        };
        camera.update_basis();
        camera
    }

    /// Computes the basis anew from the eye, the centre and the present
    /// upward direction.
    pub fn update_basis(&mut self)
        ensures
            final(self).looks_from(old(self).eye, old(self).center, old(self).up),
            final(self).changed,
    {
        self.forward = self.center.sub(self.eye).normalized();
        self.right = self.forward.cross(self.up).normalized();
        self.up = self.right.cross(self.forward);
        self.changed = true;
    }

    /// Turns the eye round the centre, at an unchanged distance: by `yaw`
    /// round the vertical and by `pitch` upward, but not steeper than 1.5
    /// radians above or below the centre.
    pub fn orbit(&mut self, yaw: Rotation, pitch: Rotation)
        ensures
            final(self).looks_from(
                spec_orbited_eye(old(self).eye, old(self).center, yaw, pitch),
                old(self).center,
                old(self).up,
            ),
            final(self).changed,
    {
        let relative: Vector3 = self.eye.sub(self.center);
        let radius: Scalar = relative.length();
        let level: Scalar = plane_length(relative.x, relative.z);
        let heading: (Scalar, Scalar) = if level.raw == 0 {
            (Scalar::one(), Scalar::zero())
        } else {
            (relative.x.div(level), relative.z.div(level))
        };
        let turned: (Scalar, Scalar) = turn(heading.0, heading.1, yaw);
        let raised: (Scalar, Scalar) = turn(level.div(radius), relative.y.div(radius), pitch);
        let kept: (Scalar, Scalar) = if raised.0.raw < STEEPEST_COSINE {
            if raised.1.raw >= 0 {
                (Scalar::from_raw(STEEPEST_COSINE), Scalar::from_raw(STEEPEST_SINE))
            } else {
                (Scalar::from_raw(STEEPEST_COSINE), Scalar::from_raw(-STEEPEST_SINE))
            }
        } else {
            raised
        };
        self.eye = self.center.add(
            Vector3::new(
                radius.mul(kept.0).mul(turned.0),
                radius.mul(kept.1),
                radius.mul(kept.0).mul(turned.1),
            ),
        );
        self.update_basis();
    }

    /// Moves the eye by `amount` toward the centre, or away from it if
    /// `amount` is negative.
    pub fn zoom(&mut self, amount: Scalar)
        ensures
            final(self).looks_from(old(self).spec_zoomed_eye(amount), old(self).center, old(self).up),
            final(self).changed,
    {
        let forward: Vector3 = self.center.sub(self.eye).normalized();
        self.eye = self.eye.add(forward.scale(amount));
        self.update_basis();
    }

    /// Whether the camera has moved since this was last asked.
    pub fn is_changed(&mut self) -> (changed: bool)
        ensures
            changed == old(self).changed,
            !final(self).changed,
            final(self).eye == old(self).eye,
            final(self).center == old(self).center,
            final(self).up == old(self).up,
            final(self).forward == old(self).forward,
            final(self).right == old(self).right,
    {
        let changed: bool = self.changed;
        self.changed = false;
        changed
    }

    /// A vector of camera space (x to the right, y upward, z backward) as a
    /// vector in the world.
    pub fn basis_change(&self, p: &Vector3) -> (q: Vector3)
        ensures
            q == self.spec_basis_change(*p),
    {
        Vector3::new(
            p.x.mul(self.right.x).add(p.y.mul(self.up.x)).sub(p.z.mul(self.forward.x)),
            p.x.mul(self.right.y).add(p.y.mul(self.up.y)).sub(p.z.mul(self.forward.y)),
            p.x.mul(self.right.z).add(p.y.mul(self.up.z)).sub(p.z.mul(self.forward.z)),
        )
    }
}

} // verus!
