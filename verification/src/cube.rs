//! The box primitive and its exact ray intersection.

use vstd::prelude::*;
use crate::material::Material;
use crate::ray_intersect::{Intersect, RayIntersect};
use crate::scalar::{Scalar, SCALE, trunc_div, lemma_rounded_quotient, lemma_trunc_div_bound};
use crate::slab::{entry_distance, exit_distance, inverse_direction, slab_far, slab_interval,
    slab_near, slab_root, slabs_overlap, spec_inverse_direction, lemma_slab_root_monotonic,
    lemma_trunc_div_sign};
use crate::vector::Vector3;

verus! {

/// Hits nearer than this are taken for the surface the ray started from.
pub const HIT_EPSILON: i64 = 1_000_000;

/// An axis-aligned box with a material.
#[derive(Clone, Copy, Debug, PartialEq, Eq)]
pub struct Cube {
    pub min_bounds: Vector3,
    pub max_bounds: Vector3,
    pub material: Material,
}

/// Half of an extent.
pub open spec fn spec_half(extent: Scalar) -> Scalar {
    extent.spec_div(Scalar::spec_from_int(2))
}

/// `value` clamped to the range from zero to one.
pub open spec fn spec_clamp_unit(value: Scalar) -> Scalar {
    value.spec_max(Scalar::spec_zero()).spec_min(Scalar::spec_one())
}

/// How far `coordinate` lies along the side from `lo` of length `size`, as a
/// fraction from zero to one.
pub open spec fn spec_fraction(coordinate: Scalar, lo: Scalar, size: Scalar) -> Scalar {
    spec_clamp_unit(coordinate.spec_sub(lo).spec_div(size))
}

/// One minus [`spec_fraction`]: the same fraction measured from the far side.
pub open spec fn spec_flipped_fraction(coordinate: Scalar, lo: Scalar, size: Scalar) -> Scalar {
    spec_clamp_unit(Scalar::spec_one().spec_sub(coordinate.spec_sub(lo).spec_div(size)))
}

/// The unit vector along the axis with the number `axis` (0 for x, 1 for y,
/// else z), in its positive direction or against it.
pub open spec fn spec_axis_unit(axis: int, positive: bool) -> Vector3 {
    let zero = Scalar::spec_zero();
    let one = if positive {
        Scalar::spec_one()
    } else {
        Scalar::spec_one().spec_neg()
    };
    if axis == 0 {
        Vector3 { x: one, y: zero, z: zero }
    } else if axis == 1 {
        Vector3 { x: zero, y: one, z: zero }
    } else {
        Vector3 { x: zero, y: zero, z: one }
    }
}

/// The component of `v` along the axis with the number `axis`.
pub open spec fn spec_component(v: Vector3, axis: int) -> Scalar {
    if axis == 0 {
        v.x
    } else if axis == 1 {
        v.y
    } else {
        v.z
    }
}

/// One of the six outward unit normals of a box.
pub open spec fn is_axis_normal(n: Vector3) -> bool {
    ||| (n.x.raw == SCALE || n.x.raw == -SCALE) && n.y.raw == 0 && n.z.raw == 0
    ||| n.x.raw == 0 && (n.y.raw == SCALE || n.y.raw == -SCALE) && n.z.raw == 0
    ||| n.x.raw == 0 && n.y.raw == 0 && (n.z.raw == SCALE || n.z.raw == -SCALE)
}

/// `value` clamped to the range from zero to one.
fn clamp_unit(value: Scalar) -> (r: Scalar)
    ensures
        r == spec_clamp_unit(value),
        0 <= r.raw <= SCALE,
{
    value.max(Scalar::zero()).min(Scalar::one())
}

/// The unit vector along an axis, in its positive direction or against it.
fn axis_unit(axis: u8, positive: bool) -> (n: Vector3)
    ensures
        n == spec_axis_unit(axis as int, positive),
        is_axis_normal(n),
{
    let zero: Scalar = Scalar::zero();
    let one: Scalar = if positive {
        Scalar::one()
    } else {
        Scalar::one().neg()
    };
    if axis == 0 {
        Vector3 { x: one, y: zero, z: zero }
    } else if axis == 1 {
        Vector3 { x: zero, y: one, z: zero }
    } else {
        Vector3 { x: zero, y: zero, z: one }
    }
}

/// The component of `v` along an axis.
fn component(v: &Vector3, axis: u8) -> (c: Scalar)
    ensures
        c == spec_component(*v, axis as int),
{
    if axis == 0 {
        v.x
    } else if axis == 1 {
        v.y
    } else {
        v.z
    }
}

impl Cube {
    /// The box has a corner `min_bounds` that is nowhere above `max_bounds`.
    pub open spec fn valid(&self) -> bool {
        &&& self.min_bounds.x.raw <= self.max_bounds.x.raw
        &&& self.min_bounds.y.raw <= self.max_bounds.y.raw
        &&& self.min_bounds.z.raw <= self.max_bounds.z.raw
    }

    /// The box of the given width, height and depth around `center`.
    pub open spec fn spec_new_rect(
        center: Vector3,
        width: Scalar,
        height: Scalar,
        depth: Scalar,
        material: Material,
    ) -> Cube {
        let half = Vector3 { x: spec_half(width), y: spec_half(height), z: spec_half(depth) };
        Cube { min_bounds: center.spec_sub(half), max_bounds: center.spec_add(half), material }
    }

    /// The cube with edges of length `size` around `center`.
    pub open spec fn spec_new(center: Vector3, size: Scalar, material: Material) -> Cube {
        Cube::spec_new_rect(center, size, size, size, material)
    }

    /// The extent of the box along each axis.
    pub open spec fn spec_size(&self) -> Vector3 {
        self.max_bounds.spec_sub(self.min_bounds)
    }

    /// The centre of the box.
    pub open spec fn spec_center(&self) -> Vector3 {
        self.min_bounds.spec_add(self.max_bounds).spec_scale(Scalar::spec_ratio(1, 2))
    }

    /// The surface coordinates of `point` on the face with the given normal,
    /// each from zero to one. On the x faces `u` runs along z, on the others
    /// along x; `v` runs along z on the y faces and down along y on the others.
    pub open spec fn spec_uv(&self, point: Vector3, normal: Vector3) -> (Scalar, Scalar) {
        let size = self.spec_size();
        let half = Scalar::spec_ratio(1, 2);
        if normal.x.spec_abs().raw > half.raw {
            (
                spec_fraction(point.z, self.min_bounds.z, size.z),
                spec_flipped_fraction(point.y, self.min_bounds.y, size.y),
            )
        } else if normal.y.spec_abs().raw > half.raw {
            (
                spec_fraction(point.x, self.min_bounds.x, size.x),
                spec_fraction(point.z, self.min_bounds.z, size.z),
            )
        } else {
            (
                spec_fraction(point.x, self.min_bounds.x, size.x),
                spec_flipped_fraction(point.y, self.min_bounds.y, size.y),
            )
        }
    }

    /// The ray parameter at which the ray is first inside the box.
    pub open spec fn spec_entry(&self, origin: Vector3, direction: Vector3) -> Scalar {
        entry_distance(
            self.min_bounds,
            self.max_bounds,
            origin,
            spec_inverse_direction(direction),
        )
    }

    /// The ray parameter at which the ray leaves the box.
    pub open spec fn spec_exit(&self, origin: Vector3, direction: Vector3) -> Scalar {
        exit_distance(self.min_bounds, self.max_bounds, origin, spec_inverse_direction(direction))
    }

    /// The ray parameter of the hit, where there is one: the entry if it lies
    /// beyond [`HIT_EPSILON`], else the exit (the origin is inside the box).
    pub open spec fn spec_hit_distance(&self, origin: Vector3, direction: Vector3) -> Scalar {
        if self.spec_entry(origin, direction).raw > HIT_EPSILON {
            self.spec_entry(origin, direction)
        } else {
            self.spec_exit(origin, direction)
        }
    }

    /// The ray meets the box in front of its origin: the slab intervals
    /// overlap and the hit lies at [`HIT_EPSILON`] or beyond.
    pub open spec fn spec_is_hit(&self, origin: Vector3, direction: Vector3) -> bool {
        &&& self.spec_entry(origin, direction).raw <= self.spec_exit(origin, direction).raw
        &&& self.spec_hit_distance(origin, direction).raw >= HIT_EPSILON
    }

    /// Whether the hit is where the ray enters the box, and not where it
    /// leaves it.
    pub open spec fn spec_hits_on_entry(&self, origin: Vector3, direction: Vector3) -> bool {
        self.spec_entry(origin, direction).raw > HIT_EPSILON
    }

    /// The axis across whose slab the ray enters the box: the slab that it
    /// enters last, and of several the first in the order x, y, z.
    pub open spec fn spec_entry_axis(&self, origin: Vector3, direction: Vector3) -> int {
        let inv = spec_inverse_direction(direction);
        let entry = self.spec_entry(origin, direction);
        if slab_near(self.min_bounds.x, self.max_bounds.x, origin.x, inv.x) == entry {
            0
        } else if slab_near(self.min_bounds.y, self.max_bounds.y, origin.y, inv.y) == entry {
            1
        } else {
            2
        }
    }

    /// The axis across whose slab the ray leaves the box: the slab that it
    /// leaves first, and of several the first in the order x, y, z.
    pub open spec fn spec_exit_axis(&self, origin: Vector3, direction: Vector3) -> int {
        let inv = spec_inverse_direction(direction);
        let exit = self.spec_exit(origin, direction);
        if slab_far(self.min_bounds.x, self.max_bounds.x, origin.x, inv.x) == exit {
            0
        } else if slab_far(self.min_bounds.y, self.max_bounds.y, origin.y, inv.y) == exit {
            1
        } else {
            2
        }
    }

    /// The axis of the face that is struck.
    pub open spec fn spec_hit_axis(&self, origin: Vector3, direction: Vector3) -> int {
        if self.spec_hits_on_entry(origin, direction) {
            self.spec_entry_axis(origin, direction)
        } else {
            self.spec_exit_axis(origin, direction)
        }
    }

    /// The outward normal of the face that is struck. The face lies across
    /// the axis of the slab that gave the distance of the hit. A ray that
    /// runs upward along that axis enters the box through the lower face and
    /// leaves it through the upper one, and a ray that runs downward the other
    /// way round; a ray that does not move along the axis counts as running
    /// upward, as its reciprocal does.
    pub open spec fn spec_hit_normal(&self, origin: Vector3, direction: Vector3) -> Vector3 {
        let axis = self.spec_hit_axis(origin, direction);
        let upward = spec_component(direction, axis).raw >= 0;
        spec_axis_unit(axis, upward != self.spec_hits_on_entry(origin, direction))
    }

    /// What the ray finds on this box.
    pub open spec fn spec_hit(&self, origin: Vector3, direction: Vector3) -> Intersect {
        if self.spec_is_hit(origin, direction) {
            let distance = self.spec_hit_distance(origin, direction);
            let point = origin.spec_add(direction.spec_scale(distance));
            let normal = self.spec_hit_normal(origin, direction);
            let uv = self.spec_uv(point, normal);
            Intersect::spec_new(self.material, distance, normal, point, uv.0, uv.1)
        } else {
            Intersect::spec_empty()
        }
    }

    /// A cube with edges of length `size` around `center`.
    pub fn new(center: Vector3, size: Scalar, material: Material) -> (cube: Cube)
        ensures
            cube == Cube::spec_new(center, size, material),
    {
        Cube::new_rect(center, size, size, size, material)
    }

    /// A box of the given width (x), height (y) and depth (z) around `center`.
    pub fn new_rect(
        center: Vector3,
        width: Scalar,
        height: Scalar,
        depth: Scalar,
        material: Material,
    ) -> (cube: Cube)
        ensures
            cube == Cube::spec_new_rect(center, width, height, depth, material),
    {
        let two: Scalar = Scalar::from_int(2);
        let half: Vector3 = Vector3::new(width.div(two), height.div(two), depth.div(two));
        Cube { min_bounds: center.sub(half), max_bounds: center.add(half), material }
    }

    /// Whether the lower corner is nowhere above the upper corner.
    pub fn is_valid(&self) -> (b: bool)
        ensures
            b == self.valid(),
    {
        self.min_bounds.x.raw <= self.max_bounds.x.raw && self.min_bounds.y.raw
            <= self.max_bounds.y.raw && self.min_bounds.z.raw <= self.max_bounds.z.raw
    }

    /// The centre of the box.
    pub fn center(&self) -> (c: Vector3)
        ensures
            c == self.spec_center(),
    {
        self.min_bounds.add(self.max_bounds).scale(Scalar::ratio(1, 2))
    }

    /// The surface coordinates of `point` on the face with the given normal.
    fn get_uv(&self, point: &Vector3, normal: &Vector3) -> (uv: (Scalar, Scalar))
        ensures
            uv == self.spec_uv(*point, *normal),
            0 <= uv.0.raw <= SCALE,
            0 <= uv.1.raw <= SCALE,
    {
        let size: Vector3 = self.max_bounds.sub(self.min_bounds);
        let half: Scalar = Scalar::ratio(1, 2);
        let one: Scalar = Scalar::one();
        if normal.x.abs().raw > half.raw {
            let u: Scalar = clamp_unit(point.z.sub(self.min_bounds.z).div(size.z));
            let v: Scalar = clamp_unit(one.sub(point.y.sub(self.min_bounds.y).div(size.y)));
            (u, v)
        } else if normal.y.abs().raw > half.raw {
            let u: Scalar = clamp_unit(point.x.sub(self.min_bounds.x).div(size.x));
            let v: Scalar = clamp_unit(point.z.sub(self.min_bounds.z).div(size.z));
            (u, v)
        } else {
            let u: Scalar = clamp_unit(point.x.sub(self.min_bounds.x).div(size.x));
            let v: Scalar = clamp_unit(one.sub(point.y.sub(self.min_bounds.y).div(size.y)));
            (u, v)
        }
    }
}

impl RayIntersect for Cube {
    open spec fn spec_ray_intersect(&self, ray_origin: Vector3, ray_direction: Vector3)
        -> Intersect {
        self.spec_hit(ray_origin, ray_direction)
    }

    /// The nearest point of the box on the ray at [`HIT_EPSILON`] or beyond,
    /// with the normal of its face and its surface coordinates; a miss if the
    /// ray passes the box or the box lies behind the origin.
    fn ray_intersect(&self, ray_origin: &Vector3, ray_direction: &Vector3) -> (hit: Intersect)
        ensures
            hit.is_intersecting ==> hit.distance.raw >= HIT_EPSILON,
            hit.is_intersecting ==> is_axis_normal(hit.normal),
            hit.is_intersecting ==> 0 <= hit.u.raw <= SCALE && 0 <= hit.v.raw <= SCALE,
    {
        let inv_dir: Vector3 = inverse_direction(ray_direction);

        let (mut tmin, mut tmax) = slab_interval(
            self.min_bounds.x,
            self.max_bounds.x,
            ray_origin.x,
            inv_dir.x,
        );
        let mut entry_axis: u8 = 0;
        let mut exit_axis: u8 = 0;
        let (tymin, tymax) = slab_interval(
            self.min_bounds.y,
            self.max_bounds.y,
            ray_origin.y,
            inv_dir.y,
        );
        if tmin.raw > tymax.raw || tymin.raw > tmax.raw {
            return Intersect::empty();
        }
        if tymin.raw > tmin.raw {
            tmin = tymin;
            entry_axis = 1;
        }
        if tymax.raw < tmax.raw {
            tmax = tymax;
            exit_axis = 1;
        }

        let (tzmin, tzmax) = slab_interval(
            self.min_bounds.z,
            self.max_bounds.z,
            ray_origin.z,
            inv_dir.z,
        );
        if tmin.raw > tzmax.raw || tzmin.raw > tmax.raw {
            return Intersect::empty();
        }
        if tzmin.raw > tmin.raw {
            tmin = tzmin;
            entry_axis = 2;
        }
        if tzmax.raw < tmax.raw {
            tmax = tzmax;
            exit_axis = 2;
        }
        assert(tmin == self.spec_entry(*ray_origin, *ray_direction));
        assert(tmax == self.spec_exit(*ray_origin, *ray_direction));
        assert(entry_axis == self.spec_entry_axis(*ray_origin, *ray_direction));
        assert(exit_axis == self.spec_exit_axis(*ray_origin, *ray_direction));

        let on_entry: bool = tmin.raw > HIT_EPSILON;
        let distance: Scalar = if on_entry {
            tmin
        } else {
            tmax
        };
        if distance.raw < HIT_EPSILON {
            return Intersect::empty();
        }
        let axis: u8 = if on_entry {
            entry_axis
        } else {
            exit_axis
        };
        let upward: bool = component(ray_direction, axis).raw >= 0;
        let point: Vector3 = ray_origin.add(ray_direction.scale(distance));
        let normal: Vector3 = axis_unit(axis, upward != on_entry);
        let (u, v) = self.get_uv(&point, &normal);
        Intersect::new(self.material, distance, normal, point, u, v)
    }
}

/// The normal of a hit is the outward normal of a face of the box.
pub proof fn lemma_hit_normal(cube: Cube, origin: Vector3, direction: Vector3)
    ensures
        is_axis_normal(cube.spec_hit_normal(origin, direction)),
        cube.spec_hit(origin, direction).is_intersecting ==> is_axis_normal(
            cube.spec_hit(origin, direction).normal,
        ),
{
}

/// The component of `v` along the axis of the face normal `n`.
pub open spec fn spec_along(v: Vector3, n: Vector3) -> Scalar {
    if n.x.raw != 0 {
        v.x
    } else if n.y.raw != 0 {
        v.y
    } else {
        v.z
    }
}

/// The face normal `n` points in the positive direction of its axis.
pub open spec fn spec_points_up(n: Vector3) -> bool {
    spec_along(n, n).raw > 0
}

/// `p` lies between the faces of the box that are not at right angles to the
/// axis of `n`, or on one of them.
pub open spec fn spec_inside_across(cube: Cube, p: Vector3, n: Vector3) -> bool {
    &&& n.x.raw == 0 ==> cube.min_bounds.x.raw <= p.x.raw <= cube.max_bounds.x.raw
    &&& n.y.raw == 0 ==> cube.min_bounds.y.raw <= p.y.raw <= cube.max_bounds.y.raw
    &&& n.z.raw == 0 ==> cube.min_bounds.z.raw <= p.z.raw <= cube.max_bounds.z.raw
}

/// Where a ray along an axis reaches the near face of the box.
pub open spec fn spec_axis_entry(cube: Cube, origin: Vector3, direction: Vector3) -> Scalar {
    if spec_points_up(direction) {
        spec_along(cube.min_bounds, direction).spec_sub(spec_along(origin, direction))
    } else {
        spec_along(cube.max_bounds, direction).spec_sub(spec_along(origin, direction)).spec_neg()
    }
}

/// Where a ray along an axis reaches the far face of the box.
pub open spec fn spec_axis_exit(cube: Cube, origin: Vector3, direction: Vector3) -> Scalar {
    if spec_points_up(direction) {
        spec_along(cube.max_bounds, direction).spec_sub(spec_along(origin, direction))
    } else {
        spec_along(cube.min_bounds, direction).spec_sub(spec_along(origin, direction)).spec_neg()
    }
}

/// A ray along an axis that passes between the four faces beside it, as one
/// through the centre of the box does, or that grazes one of them, meets the
/// bounds of the box. It enters at the near face and leaves at the far face,
/// and it hits the box exactly if the far face lies ahead of its origin by
/// [`HIT_EPSILON`] or more: a ray that points away from the box hits
/// nothing. From outside it strikes the near face, whose normal points
/// against the ray; from inside the far face, whose normal points along it,
/// unless that face lies at the largest distance there is.
pub proof fn lemma_axis_ray(cube: Cube, origin: Vector3, direction: Vector3)
    requires
        cube.valid(),
        is_axis_normal(direction),
        spec_inside_across(cube, origin, direction),
    ensures
        slabs_overlap(
            cube.min_bounds,
            cube.max_bounds,
            origin,
            spec_inverse_direction(direction),
        ),
        cube.spec_entry(origin, direction) == spec_axis_entry(cube, origin, direction),
        cube.spec_exit(origin, direction) == spec_axis_exit(cube, origin, direction),
        cube.spec_is_hit(origin, direction) <==> spec_axis_exit(cube, origin, direction).raw
            >= HIT_EPSILON,
        cube.spec_is_hit(origin, direction) && spec_axis_entry(cube, origin, direction).raw
            > HIT_EPSILON ==> cube.spec_hit(origin, direction).distance == spec_axis_entry(
            cube,
            origin,
            direction,
        ) && cube.spec_hit(origin, direction).normal == direction.spec_neg(),
        cube.spec_is_hit(origin, direction) && spec_axis_entry(cube, origin, direction).raw
            <= HIT_EPSILON ==> cube.spec_hit(origin, direction).distance == spec_axis_exit(
            cube,
            origin,
            direction,
        ),
        cube.spec_is_hit(origin, direction) && spec_axis_entry(cube, origin, direction).raw
            <= HIT_EPSILON && spec_axis_exit(cube, origin, direction).raw < i64::MAX
            ==> cube.spec_hit(origin, direction).normal == direction,
{
    let lo = cube.min_bounds;
    let hi = cube.max_bounds;
    let one = Scalar::spec_one();
    assert(direction.x.raw == SCALE ==> direction.x == one);
    assert(direction.y.raw == SCALE ==> direction.y == one);
    assert(direction.z.raw == SCALE ==> direction.z == one);
    assert(direction.x.raw == -SCALE ==> direction.x == one.spec_neg());
    assert(direction.y.raw == -SCALE ==> direction.y == one.spec_neg());
    assert(direction.z.raw == -SCALE ==> direction.z == one.spec_neg());
    assert(direction.x.raw == 0 ==> direction.x == Scalar::spec_zero());
    assert(direction.y.raw == 0 ==> direction.y == Scalar::spec_zero());
    assert(direction.z.raw == 0 ==> direction.z == Scalar::spec_zero());
    if direction.x.raw == 0 {
        crate::slab::lemma_slab_along(lo.x, hi.x, origin.x);
    } else if direction.x.raw > 0 {
        crate::slab::lemma_slab_forward(lo.x, hi.x, origin.x);
    } else {
        crate::slab::lemma_slab_backward(lo.x, hi.x, origin.x);
    }
    if direction.y.raw == 0 {
        crate::slab::lemma_slab_along(lo.y, hi.y, origin.y);
    } else if direction.y.raw > 0 {
        crate::slab::lemma_slab_forward(lo.y, hi.y, origin.y);
    } else {
        crate::slab::lemma_slab_backward(lo.y, hi.y, origin.y);
    }
    if direction.z.raw == 0 {
        crate::slab::lemma_slab_along(lo.z, hi.z, origin.z);
    } else if direction.z.raw > 0 {
        crate::slab::lemma_slab_forward(lo.z, hi.z, origin.z);
    } else {
        crate::slab::lemma_slab_backward(lo.z, hi.z, origin.z);
    }
}

/// The sum of the two corners of the box fits a scalar on each axis, so that
/// the centre is not clamped.
pub open spec fn spec_corners_add_up(cube: Cube) -> bool {
    &&& i64::MIN <= cube.min_bounds.x.raw + cube.max_bounds.x.raw <= i64::MAX
    &&& i64::MIN <= cube.min_bounds.y.raw + cube.max_bounds.y.raw <= i64::MAX
    &&& i64::MIN <= cube.min_bounds.z.raw + cube.max_bounds.z.raw <= i64::MAX
}

/// Half the sum of two scalars lies between them.
pub proof fn lemma_midpoint_between(a: Scalar, b: Scalar)
    requires
        a.raw <= b.raw,
        i64::MIN <= a.raw + b.raw <= i64::MAX,
    ensures
        a.raw <= a.spec_add(b).spec_mul(Scalar::spec_ratio(1, 2)).raw <= b.raw,
{
    let half = Scalar::spec_ratio(1, 2);
    assert(half.raw == 500_000_000) by {
        assert(SCALE * SCALE == 1_000_000_000_000_000_000) by (nonlinear_arith)
            requires
                SCALE == 1_000_000_000,
        ;
    }
    let sum = a.raw + b.raw;
    assert(a.spec_add(b).raw == sum);
    if sum >= 0 {
        let q = (sum * 500_000_000) / 1_000_000_000;
        assert(2 * q <= sum < 2 * q + 2);
    } else {
        let q = ((-sum) * 500_000_000) / 1_000_000_000;
        assert(2 * q <= -sum < 2 * q + 2);
        assert(-(sum * 500_000_000) == (-sum) * 500_000_000);
    }
}

/// The centre of a valid box lies between its corners on each axis, where
/// the sum of the corners fits a scalar.
pub proof fn lemma_centre_inside(cube: Cube)
    requires
        cube.valid(),
        spec_corners_add_up(cube),
    ensures
        cube.min_bounds.x.raw <= cube.spec_center().x.raw <= cube.max_bounds.x.raw,
        cube.min_bounds.y.raw <= cube.spec_center().y.raw <= cube.max_bounds.y.raw,
        cube.min_bounds.z.raw <= cube.spec_center().z.raw <= cube.max_bounds.z.raw,
{
    lemma_midpoint_between(cube.min_bounds.x, cube.max_bounds.x);
    lemma_midpoint_between(cube.min_bounds.y, cube.max_bounds.y);
    lemma_midpoint_between(cube.min_bounds.z, cube.max_bounds.z);
}

/// A ray along an axis through the centre of a valid box meets the bounds of
/// the box, from wherever on that line it starts, and hits the box exactly
/// if the far face lies ahead of its origin by [`HIT_EPSILON`] or more.
pub proof fn lemma_ray_through_centre(cube: Cube, origin: Vector3, direction: Vector3)
    requires
        cube.valid(),
        spec_corners_add_up(cube),
        is_axis_normal(direction),
        direction.x.raw == 0 ==> origin.x == cube.spec_center().x,
        direction.y.raw == 0 ==> origin.y == cube.spec_center().y,
        direction.z.raw == 0 ==> origin.z == cube.spec_center().z,
    ensures
        slabs_overlap(
            cube.min_bounds,
            cube.max_bounds,
            origin,
            spec_inverse_direction(direction),
        ),
        cube.spec_is_hit(origin, direction) <==> spec_axis_exit(cube, origin, direction).raw
            >= HIT_EPSILON,
        cube.spec_hit(origin, direction).is_intersecting ==> is_axis_normal(
            cube.spec_hit(origin, direction).normal,
        ),
{
    lemma_centre_inside(cube);
    lemma_axis_ray(cube, origin, direction);
}

/// The origin lies beyond a face of the box, and the ray runs away from that
/// face.
pub open spec fn spec_points_away(cube: Cube, origin: Vector3, direction: Vector3) -> bool {
    ||| cube.max_bounds.x.raw < origin.x.raw && direction.x.raw > 0
    ||| origin.x.raw < cube.min_bounds.x.raw && direction.x.raw < 0
    ||| cube.max_bounds.y.raw < origin.y.raw && direction.y.raw > 0
    ||| origin.y.raw < cube.min_bounds.y.raw && direction.y.raw < 0
    ||| cube.max_bounds.z.raw < origin.z.raw && direction.z.raw > 0
    ||| origin.z.raw < cube.min_bounds.z.raw && direction.z.raw < 0
}

/// A ray that points away from the box hits nothing, whatever its direction
/// otherwise.
pub proof fn lemma_ray_pointing_away(cube: Cube, origin: Vector3, direction: Vector3)
    requires
        cube.valid(),
        spec_points_away(cube, origin, direction),
    ensures
        cube.spec_exit(origin, direction).raw <= 0,
        !cube.spec_is_hit(origin, direction),
        cube.spec_hit(origin, direction) == Intersect::spec_empty(),
{
    let lo = cube.min_bounds;
    let hi = cube.max_bounds;
    if (hi.x.raw < origin.x.raw && direction.x.raw > 0) || (origin.x.raw < lo.x.raw
        && direction.x.raw < 0) {
        crate::slab::lemma_slab_behind(lo.x, hi.x, origin.x, direction.x);
    } else if (hi.y.raw < origin.y.raw && direction.y.raw > 0) || (origin.y.raw < lo.y.raw
        && direction.y.raw < 0) {
        crate::slab::lemma_slab_behind(lo.y, hi.y, origin.y, direction.y);
    } else {
        crate::slab::lemma_slab_behind(lo.z, hi.z, origin.z, direction.z);
    }
}

/// The most that a coordinate has in magnitude where the point of a hit is
/// followed through the rounding: a billion, in raw units.
pub const FAR: i64 = 1_000_000_000_000_000_000;

/// `p` lies on the plane of the slab from `lo` to `hi` that a ray from `o`
/// with the component `d` across the slab reaches first, but for rounding:
/// on the side of the origin, and off the plane by less than two raw units
/// and a billionth of the way from the origin to the plane.
pub open spec fn spec_on_near_face(lo: Scalar, hi: Scalar, o: Scalar, d: Scalar, p: Scalar)
    -> bool {
    if d.raw > 0 {
        &&& o.raw < lo.raw
        &&& p.raw <= lo.raw
        &&& (lo.raw - p.raw) * SCALE < (lo.raw - o.raw) + 2 * SCALE
    } else {
        &&& hi.raw < o.raw
        &&& hi.raw <= p.raw
        &&& (p.raw - hi.raw) * SCALE < (o.raw - hi.raw) + 2 * SCALE
    }
}

/// Going the way `way` at the speed `speed`, with the rounded reciprocal
/// `inv` of the speed, the rounded time `t` and the rounded distance `gone`:
/// the distance gone falls short of the way by less than two raw units and
/// a billionth of the way.
proof fn lemma_way_gone(way: int, speed: int, inv: int, t: int, gone: int)
    requires
        0 < speed <= SCALE,
        0 <= inv,
        SCALE * SCALE - speed < inv * speed <= SCALE * SCALE,
        0 <= way * inv - t * SCALE < SCALE,
        0 < t,
        0 <= speed * t - gone * SCALE < SCALE,
    ensures
        0 < way,
        gone <= way,
        (way - gone) * SCALE < way + 2 * SCALE,
{
    let s = SCALE as int;
    if way <= 0 {
        assert(way * inv <= 0) by (nonlinear_arith)
            requires
                way <= 0,
                inv >= 0,
        ;
        assert(t * s > 0) by (nonlinear_arith)
            requires
                t > 0,
                s > 0,
        ;
    }
    let product = inv * speed;
    assert(speed * (way * inv) == way * product) by (nonlinear_arith)
        requires
            product == inv * speed,
    ;
    assert(speed * (t * s) == (speed * t) * s) by (nonlinear_arith);
    assert(speed * (t * s) <= speed * (way * inv)) by (nonlinear_arith)
        requires
            t * s <= way * inv,
            speed > 0,
    ;
    assert(way * product <= way * (s * s)) by (nonlinear_arith)
        requires
            product <= s * s,
            way > 0,
    ;
    assert(way * (s * s) == (way * s) * s) by (nonlinear_arith);
    assert(speed * t <= way * s) by (nonlinear_arith)
        requires
            (speed * t) * s <= (way * s) * s,
            s > 0,
    ;
    assert(gone <= way) by (nonlinear_arith)
        requires
            gone * s <= speed * t,
            speed * t <= way * s,
            s > 0,
    ;
    // from below
    assert(speed * (t * s) > speed * (way * inv) - speed * s) by (nonlinear_arith)
        requires
            t * s > way * inv - s,
            speed > 0,
    ;
    assert(way * product > way * (s * s) - way * speed) by (nonlinear_arith)
        requires
            product > s * s - speed,
            way > 0,
    ;
    assert(way * speed <= way * s && speed * s <= s * s) by (nonlinear_arith)
        requires
            0 < speed <= s,
            way > 0,
    ;
    assert((speed * t) * s > (way * s) * s - way * s - s * s);
    assert(((way * s) * s - way * s - s * s) == (way * s - way - s) * s) by (nonlinear_arith);
    assert(speed * t > way * s - way - s) by (nonlinear_arith)
        requires
            (speed * t) * s > (way * s - way - s) * s,
            s > 0,
    ;
    assert((way - gone) * s == way * s - gone * s) by (nonlinear_arith);
}

/// Where a ray enters a slab across which it moves, it is on the plane of
/// the slab that it reaches first, but for rounding.
pub proof fn lemma_entry_point_on_axis(lo: Scalar, hi: Scalar, o: Scalar, d: Scalar, t: Scalar)
    requires
        lo.raw <= hi.raw,
        -FAR <= lo.raw,
        hi.raw <= FAR,
        -FAR <= o.raw <= FAR,
        d.raw != 0,
        -SCALE <= d.raw <= SCALE,
        t == slab_near(lo, hi, o, d.spec_recip()),
        0 < t.raw < i64::MAX,
    ensures
        spec_on_near_face(lo, hi, o, d, o.spec_add(d.spec_mul(t))),
{
    let s = SCALE as int;
    let speed = d.raw as int;
    let inv = d.spec_recip();
    let k = trunc_div(s * s, speed);
    assert(s * s == 1_000_000_000_000_000_000) by (nonlinear_arith)
        requires
            s == 1_000_000_000,
    ;
    lemma_trunc_div_bound(s * s, speed);
    lemma_rounded_quotient(s * s, speed);
    assert(inv.raw == k);
    let time = t.raw as int;
    if speed > 0 {
        lemma_trunc_div_sign(s * s, speed);
        lemma_slab_root_monotonic(lo, hi, o, inv, false, true);
        let way = lo.raw - o.raw;
        assert(t == slab_root(lo, o, inv, false));
        assert(time == trunc_div(way * k, s));
        if way * k <= 0 {
            lemma_trunc_div_sign(way * k, s);
        }
        lemma_rounded_quotient(way * k, s);
        assert(speed * time > 0) by (nonlinear_arith)
            requires
                speed > 0,
                time > 0,
        ;
        let gone = trunc_div(speed * time, s);
        lemma_rounded_quotient(speed * time, s);
        lemma_trunc_div_sign(speed * time, s);
        assert(k * speed == speed * k && way * k == way * k) by (nonlinear_arith);
        lemma_way_gone(way, speed, k, time, gone);
        assert(d.spec_mul(t).raw == gone);
    } else {
        assert(k <= 0) by (nonlinear_arith)
            requires
                0 <= s * s - k * speed < -speed,
                speed < 0,
                s * s >= 0,
        ;
        lemma_slab_root_monotonic(lo, hi, o, inv, false, true);
        let back = hi.raw - o.raw;
        assert(t == slab_root(hi, o, inv, true));
        assert(time == trunc_div(back * k, s));
        if back * k <= 0 {
            lemma_trunc_div_sign(back * k, s);
        }
        lemma_rounded_quotient(back * k, s);
        let way = -back;
        let m = -k;
        let e = -speed;
        assert(way * m == back * k && m * e == k * speed) by (nonlinear_arith)
            requires
                way == -back,
                m == -k,
                e == -speed,
        ;
        assert(e * time > 0 && speed * time == -(e * time)) by (nonlinear_arith)
            requires
                e == -speed,
                e > 0,
                time > 0,
        ;
        let gone = trunc_div(e * time, s);
        lemma_rounded_quotient(e * time, s);
        lemma_trunc_div_sign(e * time, s);
        lemma_way_gone(way, e, m, time, gone);
        assert(trunc_div(speed * time, s) == -gone);
        assert(d.spec_mul(t).raw == -gone);
    }
}

/// The point of a hit lies on the face that the normal names, but for
/// rounding: where a ray from outside strikes a box, the point of the hit is
/// on the plane of the face that it enters through, on the side of the
/// origin, and off that plane by less than two raw units and a billionth of
/// the way from the origin to the plane. This holds of coordinates within a
/// billion, a direction with components within one that moves across the
/// face, and a distance short of the largest scalar.
pub proof fn lemma_entry_point_on_face(cube: Cube, origin: Vector3, direction: Vector3)
    requires
        cube.valid(),
        cube.spec_is_hit(origin, direction),
        cube.spec_hits_on_entry(origin, direction),
        cube.spec_hit_distance(origin, direction).raw < i64::MAX,
        -FAR <= cube.min_bounds.x.raw && cube.max_bounds.x.raw <= FAR,
        -FAR <= cube.min_bounds.y.raw && cube.max_bounds.y.raw <= FAR,
        -FAR <= cube.min_bounds.z.raw && cube.max_bounds.z.raw <= FAR,
        -FAR <= origin.x.raw <= FAR,
        -FAR <= origin.y.raw <= FAR,
        -FAR <= origin.z.raw <= FAR,
        -SCALE <= direction.x.raw <= SCALE,
        -SCALE <= direction.y.raw <= SCALE,
        -SCALE <= direction.z.raw <= SCALE,
        spec_component(direction, cube.spec_hit_axis(origin, direction)).raw != 0,
    ensures
        ({
            let axis = cube.spec_hit_axis(origin, direction);
            spec_on_near_face(
                spec_component(cube.min_bounds, axis),
                spec_component(cube.max_bounds, axis),
                spec_component(origin, axis),
                spec_component(direction, axis),
                spec_component(cube.spec_hit(origin, direction).point, axis),
            )
        }),
{
    let axis = cube.spec_hit_axis(origin, direction);
    let t = cube.spec_entry(origin, direction);
    let hit = cube.spec_hit(origin, direction);
    assert(hit.distance == t);
    assert(hit.point == origin.spec_add(direction.spec_scale(t)));
    if axis == 0 {
        lemma_entry_point_on_axis(
            cube.min_bounds.x,
            cube.max_bounds.x,
            origin.x,
            direction.x,
            t,
        );
    } else if axis == 1 {
        lemma_entry_point_on_axis(
            cube.min_bounds.y,
            cube.max_bounds.y,
            origin.y,
            direction.y,
            t,
        );
    } else {
        lemma_entry_point_on_axis(
            cube.min_bounds.z,
            cube.max_bounds.z,
            origin.z,
            direction.z,
            t,
        );
    }
}

} // verus!
