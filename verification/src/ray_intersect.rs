//! The record of a ray meeting a surface, and the capability of being met.

use vstd::prelude::*;
use crate::material::Material;
use crate::scalar::Scalar;
use crate::vector::Vector3;

verus! {

/// What a ray found: nothing (`is_intersecting` is false and every field is
/// zero), or the nearest point of a surface.
#[derive(Clone, Copy, Debug, PartialEq, Eq)]
pub struct Intersect {
    /// The material of the surface that was struck.
    pub material: Material,
    /// The ray parameter of the hit.
    pub distance: Scalar,
    pub is_intersecting: bool,
    /// The outward normal of the face that was struck.
    pub normal: Vector3,
    pub point: Vector3,
    pub u: Scalar,
    pub v: Scalar,
}

impl Intersect {
    /// A hit.
    pub open spec fn spec_new(
        material: Material,
        distance: Scalar,
        normal: Vector3,
        point: Vector3,
        u: Scalar,
        v: Scalar,
    ) -> Intersect {
        Intersect { material, distance, is_intersecting: true, normal, point, u, v }
    }

    /// A miss: no hit, and every field zero.
    pub open spec fn spec_empty() -> Intersect {
        Intersect {
            material: Material::spec_black(),
            distance: Scalar::spec_zero(),
            is_intersecting: false,
            normal: Vector3::spec_zero(),
            point: Vector3::spec_zero(),
            u: Scalar::spec_zero(),
            v: Scalar::spec_zero(),
        }
    }

    /// The nearer of two results: a hit before a miss, and of two hits the one
    /// with the smaller distance, the second on a tie.
    pub open spec fn spec_nearer(self, other: Intersect) -> Intersect {
        if self.is_intersecting && other.is_intersecting {
            if self.distance.raw < other.distance.raw {
                self
            } else {
                other
            }
        } else if self.is_intersecting {
            self
        } else {
            other
        }
    }

    /// A hit.
    pub fn new(
        material: Material,
        distance: Scalar,
        normal: Vector3,
        point: Vector3,
        u: Scalar,
        v: Scalar,
    ) -> (hit: Intersect)
        ensures
            hit == Intersect::spec_new(material, distance, normal, point, u, v),
    {
        Intersect { material, distance, is_intersecting: true, normal, point, u, v }
    }

    /// A miss.
    pub fn empty() -> (hit: Intersect)
        ensures
            hit == Intersect::spec_empty(),
    {
        Intersect {
            material: Material::black(),
            distance: Scalar::zero(),
            is_intersecting: false,
            normal: Vector3::zero(),
            point: Vector3::zero(),
            u: Scalar::zero(),
            v: Scalar::zero(),
        }
    }

    /// The nearer of two results.
    pub fn nearer(self, other: Intersect) -> (hit: Intersect)
        ensures
            hit == self.spec_nearer(other),
    {
        if self.is_intersecting && other.is_intersecting {
            if self.distance.raw < other.distance.raw {
                self
            } else {
                other
            }
        } else if self.is_intersecting {
            self
        } else {
            other
        }
    }
}

/// The nearest of a sequence of results: of several hits at the nearest
/// distance the last, and the empty record if there is none.
pub open spec fn nearest_of(hits: Seq<Intersect>) -> Intersect
    decreases hits.len(),
{
    if hits.len() == 0 {
        Intersect::spec_empty()
    } else {
        nearest_of(hits.drop_last()).spec_nearer(hits.last())
    }
}

/// Each result in `hits` that is no hit is the empty record.
pub open spec fn misses_are_empty(hits: Seq<Intersect>) -> bool {
    forall|i: int|
        0 <= i < hits.len() && !(#[trigger] hits[i]).is_intersecting ==> hits[i]
            == Intersect::spec_empty()
}

/// The nearest of no hits is the empty record.
pub proof fn lemma_nearest_miss(hits: Seq<Intersect>)
    requires
        misses_are_empty(hits),
    ensures
        !nearest_of(hits).is_intersecting ==> nearest_of(hits) == Intersect::spec_empty(),
    decreases hits.len(),
{
    if hits.len() > 0 {
        assert(misses_are_empty(hits.drop_last())) by {
            assert forall|i: int|
                0 <= i < hits.drop_last().len() && !(#[trigger] hits.drop_last()[i]).is_intersecting
                implies hits.drop_last()[i] == Intersect::spec_empty() by {
                assert(hits.drop_last()[i] == hits[i]);
            }
        }
        lemma_nearest_miss(hits.drop_last());
        assert(hits.last() == hits[hits.len() - 1]);
    }
}

/// The nearest of two sequences, one after the other, is the nearer of the
/// nearest of each.
pub proof fn lemma_nearest_concat(a: Seq<Intersect>, b: Seq<Intersect>)
    requires
        misses_are_empty(a),
    ensures
        nearest_of(a + b) == nearest_of(a).spec_nearer(nearest_of(b)),
    decreases b.len(),
{
    lemma_nearest_miss(a);
    if b.len() == 0 {
        assert(a + b =~= a);
    } else {
        assert((a + b).drop_last() =~= a + b.drop_last());
        assert((a + b).last() == b.last());
        lemma_nearest_concat(a, b.drop_last());
    }
}

/// The nearest of a sequence is a hit exactly if the sequence holds one; it
/// is then one of them, and none of them is nearer.
pub proof fn lemma_nearest_is_nearest(hits: Seq<Intersect>)
    ensures
        nearest_of(hits).is_intersecting <==> exists|i: int|
            0 <= i < hits.len() && (#[trigger] hits[i]).is_intersecting,
        nearest_of(hits).is_intersecting ==> exists|i: int|
            0 <= i < hits.len() && nearest_of(hits) == #[trigger] hits[i],
        forall|i: int|
            0 <= i < hits.len() && (#[trigger] hits[i]).is_intersecting ==> nearest_of(
                hits,
            ).distance.raw <= hits[i].distance.raw,
    decreases hits.len(),
{
    if hits.len() > 0 {
        let front = hits.drop_last();
        let before = nearest_of(front);
        let found = nearest_of(hits);
        lemma_nearest_is_nearest(front);
        assert(hits.last() == hits[hits.len() - 1]);
        assert forall|i: int| 0 <= i < front.len() implies #[trigger] front[i] == hits[i] by {}
        if before.is_intersecting {
            let i = choose|i: int| 0 <= i < front.len() && (#[trigger] front[i]).is_intersecting;
            assert(hits[i].is_intersecting);
        }
        if exists|i: int| 0 <= i < hits.len() && (#[trigger] hits[i]).is_intersecting {
            let i = choose|i: int| 0 <= i < hits.len() && (#[trigger] hits[i]).is_intersecting;
            if i < front.len() {
                assert(front[i].is_intersecting);
            }
        }
        if found.is_intersecting {
            if found == hits.last() {
            } else {
                let i = choose|i: int| 0 <= i < front.len() && before == #[trigger] front[i];
                assert(found == hits[i]);
            }
        }
        assert forall|i: int|
            0 <= i < hits.len() && (#[trigger] hits[i]).is_intersecting implies found.distance.raw
            <= hits[i].distance.raw by {
            if i < front.len() {
                assert(front[i] == hits[i]);
            }
        }
    }
}

/// A shape that a ray can meet.
pub trait RayIntersect {
    /// What the ray from `ray_origin` along `ray_direction` finds on this
    /// shape.
    spec fn spec_ray_intersect(&self, ray_origin: Vector3, ray_direction: Vector3) -> Intersect;

    /// What the ray finds on this shape.
    fn ray_intersect(&self, ray_origin: &Vector3, ray_direction: &Vector3) -> (hit: Intersect)
        ensures
            hit == self.spec_ray_intersect(*ray_origin, *ray_direction),
    ;
}

} // verus!
