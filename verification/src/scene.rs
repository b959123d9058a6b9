//! What a scene is made of: its primitives and its lights.

use vstd::prelude::*;
use crate::cube::Cube;
use crate::light::Light;
use crate::ray_intersect::{Intersect, RayIntersect};
use crate::scalar::Scalar;
use crate::vector::Vector3;

verus! {

/// A primitive of a scene.
#[derive(Clone, Copy, Debug, PartialEq, Eq)]
pub enum SceneObject {
    Cube(Cube),
}

impl RayIntersect for SceneObject {
    open spec fn spec_ray_intersect(&self, ray_origin: Vector3, ray_direction: Vector3)
        -> Intersect {
        match self {
            SceneObject::Cube(cube) => cube.spec_ray_intersect(ray_origin, ray_direction),
        }
    }

    fn ray_intersect(&self, ray_origin: &Vector3, ray_direction: &Vector3) -> (hit: Intersect) {
        match self {
            SceneObject::Cube(cube) => cube.ray_intersect(ray_origin, ray_direction),
        }
    }
}

/// The primitive gives off light.
pub open spec fn spec_is_emissive(cube: Cube) -> bool {
    cube.material.emission_strength.raw > 0
}

/// The point light that stands for an emissive primitive: at its centre, in
/// the colour of its emission, twice as strong.
pub open spec fn spec_emissive_light(cube: Cube) -> Light {
    Light {
        position: cube.spec_center(),
        color: cube.material.emission,
        intensity: cube.material.emission_strength.spec_mul(Scalar::spec_from_int(2)),
    }
}

/// The lights of the emissive primitives among `cubes`, in their order.
pub open spec fn spec_emissive_lights(cubes: Seq<Cube>) -> Seq<Light>
    decreases cubes.len(),
{
    if cubes.len() == 0 {
        Seq::empty()
    } else if spec_is_emissive(cubes.last()) {
        spec_emissive_lights(cubes.drop_last()).push(spec_emissive_light(cubes.last()))
    } else {
        spec_emissive_lights(cubes.drop_last())
    }
}

/// The lights of a scene: the sun, then one point light for each emissive
/// primitive.
pub fn scene_lights(sun: Light, objects: &Vec<Cube>) -> (lights: Vec<Light>)
    ensures
        lights@ == seq![sun] + spec_emissive_lights(objects@),
{
    let mut lights: Vec<Light> = Vec::new();
    lights.push(sun);
    let mut i: usize = 0;
    while i < objects.len()
        invariant
            i <= objects.len(),
            lights@ == seq![sun] + spec_emissive_lights(objects@.subrange(0, i as int)),
        decreases objects.len() - i,
    {
        let obj: &Cube = &objects[i];
        proof {
            assert(objects@.subrange(0, i + 1).drop_last() =~= objects@.subrange(0, i as int));
            assert(objects@.subrange(0, i + 1).last() == objects@[i as int]);
        }
        if obj.material.emission_strength.raw > 0 {
            lights.push(
                Light::new(
                    obj.center(),
                    obj.material.emission,
                    obj.material.emission_strength.mul(Scalar::from_int(2)),
                ),
            );
        }
        i = i + 1;
    }
    proof {
        assert(objects@.subrange(0, objects.len() as int) =~= objects@);
    }
    lights
}

} // verus!
