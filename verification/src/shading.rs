//! The shading engine: the colour that arrives along a ray, from direct
//! light with shadows, mirror reflection, refraction and emission.

use vstd::prelude::*;
use crate::bvh::{BVHNode, brute_force_nearest};
use crate::cube::Cube;
use crate::light::Light;
use crate::ray_intersect::Intersect;
use crate::scalar::Scalar;
use crate::sky::{SkyMap, procedural_sky, spec_procedural_sky};
use crate::slab::inverse_direction;
use crate::snell::{reflect, refracted_direction, spec_reflect, spec_refract,
    spec_total_internal_reflection};
use crate::textures::{CpuTexture, TextureManager, spec_pixel_color, spec_texel_coordinate,
    texel_coordinate};
use crate::vector::Vector3;

verus! {

/// A light whose cosine with the normal is below this adds nothing.
pub const LAMBERT_THRESHOLD: i64 = 10_000_000;

/// A reflectivity or transparency at or below this is taken for none.
pub const BOUNCE_THRESHOLD: i64 = 50_000_000;

/// An emission strength at or below this is taken for none.
pub const EMISSION_THRESHOLD: i64 = 10_000_000;

/// How far the origin of a secondary ray is moved off the surface.
pub const ORIGIN_BIAS: i64 = 100_000;

/// The tuning values of the shading engine.
#[derive(Clone, Copy, Debug, PartialEq, Eq, Structural)]
pub struct ShadingParams {
    /// The deepest level of recursion at which a ray is still traced.
    pub max_depth: u16,
    /// The part of a light's contribution that a shadow takes away.
    pub shadow_attenuation: Scalar,
}

/// A scene as the shading engine sees it.
pub struct SceneView {
    pub cubes: Seq<Cube>,
    /// The primitives of the hierarchy, in the order of its leaves.
    pub leaves: Seq<usize>,
    pub lights: Seq<Light>,
    pub textures: Seq<CpuTexture>,
    /// The environment map, if the sky is no gradient.
    pub sky: Option<SkyMap>,
}

/// The diffuse and the specular light gathered at a point.
pub struct Lighting {
    pub diffuse: Vector3,
    pub specular: Vector3,
}

/// A point moved off the surface along its normal by [`ORIGIN_BIAS`].
pub open spec fn spec_lifted(hit: Intersect) -> Vector3 {
    hit.point.spec_add(hit.normal.spec_scale(Scalar { raw: ORIGIN_BIAS }))
}

/// The unit direction from the point of a hit to a light.
pub open spec fn spec_light_direction(hit: Intersect, light: Light) -> Vector3 {
    light.position.spec_sub(hit.point).spec_normalized()
}

/// Something lies between the point of the hit and the light.
pub open spec fn spec_in_shadow(scene: SceneView, hit: Intersect, light: Light) -> bool {
    let blocker = brute_force_nearest(
        scene.cubes,
        scene.leaves,
        spec_lifted(hit),
        spec_light_direction(hit, light),
    );
    blocker.is_intersecting && blocker.distance.raw < light.position.spec_sub(
        hit.point,
    ).spec_length().raw
}

/// The part of a light's contribution that is taken away at the point of
/// the hit: the shadow attenuation if the light is hidden, else nothing.
pub open spec fn spec_shadow_intensity(
    scene: SceneView,
    hit: Intersect,
    light: Light,
    params: ShadingParams,
) -> Scalar {
    if spec_in_shadow(scene, hit, light) {
        params.shadow_attenuation
    } else {
        Scalar::spec_zero()
    }
}

/// The origin of a ray that leaves the surface in `direction`: the point of
/// the hit, moved by [`ORIGIN_BIAS`] to the side of the surface that the ray
/// runs into.
pub open spec fn spec_offset_origin(hit: Intersect, direction: Vector3) -> Vector3 {
    let offset = hit.normal.spec_scale(Scalar { raw: ORIGIN_BIAS });
    if direction.spec_dot(hit.normal).raw < 0 {
        hit.point.spec_sub(offset)
    } else {
        hit.point.spec_add(offset)
    }
}

/// The cosine between the normal and the direction to the light, and zero
/// where the light is behind the surface.
pub open spec fn spec_lambert(hit: Intersect, light: Light) -> Scalar {
    hit.normal.spec_dot(spec_light_direction(hit, light)).spec_max(Scalar::spec_zero())
}

/// The Phong term: the cosine between the direction to the eye and the
/// mirrored direction of the light, raised to the exponent of the material.
pub open spec fn spec_phong(hit: Intersect, view: Vector3, light: Light) -> Scalar {
    let mirrored = spec_reflect(
        spec_light_direction(hit, light).spec_neg(),
        hit.normal,
    ).spec_normalized();
    view.spec_dot(mirrored).spec_max(Scalar::spec_zero()).spec_pow(hit.material.specular)
}

/// The light gathered so far, with the contribution of one more light. A
/// light whose Lambert term is below [`LAMBERT_THRESHOLD`] adds nothing and
/// is not tested for shadow.
pub open spec fn spec_add_light(
    so_far: Lighting,
    scene: SceneView,
    hit: Intersect,
    view: Vector3,
    light: Light,
    params: ShadingParams,
) -> Lighting {
    let lambert = spec_lambert(hit, light);
    if lambert.raw < LAMBERT_THRESHOLD {
        so_far
    } else {
        let shadow = spec_shadow_intensity(scene, hit, light, params);
        let strength = light.intensity.spec_mul(Scalar::spec_one().spec_sub(shadow));
        Lighting {
            diffuse: so_far.diffuse.spec_add(light.color.spec_scale(lambert.spec_mul(strength))),
            specular: so_far.specular.spec_add(
                light.color.spec_scale(spec_phong(hit, view, light).spec_mul(strength)),
            ),
        }
    }
}

/// The light gathered at the point of a hit from the given lights.
pub open spec fn spec_lighting(
    scene: SceneView,
    hit: Intersect,
    view: Vector3,
    lights: Seq<Light>,
    params: ShadingParams,
) -> Lighting
    decreases lights.len(),
{
    if lights.len() == 0 {
        Lighting { diffuse: Vector3::spec_zero(), specular: Vector3::spec_zero() }
    } else {
        spec_add_light(
            spec_lighting(scene, hit, view, lights.drop_last(), params),
            scene,
            hit,
            view,
            lights.last(),
            params,
        )
    }
}

/// The base colour at the point of a hit: the texel at its surface
/// coordinates if the material has a texture that exists, else the diffuse
/// colour of the material.
pub open spec fn spec_base_color(textures: Seq<CpuTexture>, hit: Intersect) -> Vector3 {
    match hit.material.texture {
        Some(handle) => {
            if handle < textures.len() {
                spec_pixel_color(
                    textures,
                    handle,
                    spec_texel_coordinate(hit.u, textures[handle as int].width),
                    spec_texel_coordinate(hit.v, textures[handle as int].height),
                )
            } else {
                hit.material.diffuse
            }
        },
        None => hit.material.diffuse,
    }
}

/// The light that the surface gives off by itself.
pub open spec fn spec_emissive(hit: Intersect, base: Vector3) -> Vector3 {
    if hit.material.emission_strength.raw > EMISSION_THRESHOLD {
        base.spec_mul(hit.material.emission).spec_scale(hit.material.emission_strength)
    } else {
        Vector3::spec_zero()
    }
}

/// The colour of a surface from its parts: `diffuse * albedo[0] + specular *
/// albedo[1] + reflection * reflectivity + refraction * transparency +
/// emissive`.
pub open spec fn spec_combine(
    hit: Intersect,
    base: Vector3,
    lighting: Lighting,
    reflection: Vector3,
    refraction: Vector3,
) -> Vector3 {
    base.spec_mul(lighting.diffuse).spec_scale(hit.material.albedo[0]).spec_add(
        lighting.specular.spec_scale(hit.material.albedo[1]),
    ).spec_add(reflection.spec_scale(hit.material.reflectivity)).spec_add(
        refraction.spec_scale(hit.material.transparency),
    ).spec_add(spec_emissive(hit, base))
}

/// The surface mirrors enough to be worth a reflected ray.
pub open spec fn spec_reflects(hit: Intersect) -> bool {
    hit.material.reflectivity.raw > BOUNCE_THRESHOLD
}

/// The surface lets enough through to be worth a refracted ray, and the ray
/// that came in `direction` is not reflected totally.
pub open spec fn spec_transmits(hit: Intersect, direction: Vector3) -> bool {
    &&& hit.material.transparency.raw > BOUNCE_THRESHOLD
    &&& !spec_total_internal_reflection(direction, hit.normal, hit.material.refractive_index)
}

/// The colour that arrives along the ray from `origin` in `direction`, at
/// recursion level `depth`.
///
/// Beyond the deepest level, and where the ray hits nothing, this is the sky.
/// At a hit it is the combination of the direct light, of the colour along
/// the reflected ray where the surface reflects, of the colour along the
/// refracted ray where it transmits, and of its emission; the two secondary
/// rays are traced one level deeper. Total internal reflection adds nothing.
pub open spec fn spec_cast_ray(
    scene: SceneView,
    origin: Vector3,
    direction: Vector3,
    depth: u32,
    params: ShadingParams,
) -> Vector3
    decreases params.max_depth + 1 - depth,
{
    if depth > params.max_depth {
        spec_procedural_sky(scene.textures, scene.sky, direction)
    } else {
        let hit = brute_force_nearest(scene.cubes, scene.leaves, origin, direction);
        if !hit.is_intersecting {
            spec_procedural_sky(scene.textures, scene.sky, direction)
        } else {
            let view = origin.spec_sub(hit.point).spec_normalized();
            let lighting = spec_lighting(scene, hit, view, scene.lights, params);
            let base = spec_base_color(scene.textures, hit);
            let reflection = if spec_reflects(hit) {
                spec_cast_ray(
                    scene,
                    spec_lifted(hit),
                    spec_reflect(direction, hit.normal),
                    (depth + 1) as u32,
                    params,
                )
            } else {
                Vector3::spec_zero()
            };
            let bent = spec_refract(direction, hit.normal, hit.material.refractive_index);
            let refraction = if spec_transmits(hit, direction) {
                spec_cast_ray(
                    scene,
                    spec_offset_origin(hit, bent),
                    bent,
                    (depth + 1) as u32,
                    params,
                )
            } else {
                Vector3::spec_zero()
            };
            spec_combine(hit, base, lighting, reflection, refraction)
        }
    }
}

/// How deep the recursion goes below the call at level `depth`: zero where
/// the call returns by itself, else one more than the deeper of its
/// secondary rays.
pub open spec fn spec_nesting(
    scene: SceneView,
    origin: Vector3,
    direction: Vector3,
    depth: u32,
    params: ShadingParams,
) -> nat
    decreases params.max_depth + 1 - depth,
{
    if depth > params.max_depth {
        0
    } else {
        let hit = brute_force_nearest(scene.cubes, scene.leaves, origin, direction);
        if !hit.is_intersecting {
            0
        } else {
            let below_reflection = if spec_reflects(hit) {
                1 + spec_nesting(
                    scene,
                    spec_lifted(hit),
                    spec_reflect(direction, hit.normal),
                    (depth + 1) as u32,
                    params,
                )
            } else {
                0
            };
            let bent = spec_refract(direction, hit.normal, hit.material.refractive_index);
            let below_refraction = if spec_transmits(hit, direction) {
                1 + spec_nesting(
                    scene,
                    spec_offset_origin(hit, bent),
                    bent,
                    (depth + 1) as u32,
                    params,
                )
            } else {
                0
            };
            if below_reflection >= below_refraction {
                below_reflection
            } else {
                below_refraction
            }
        }
    }
}

/// The recursion below a call at level `depth` is at most `max_depth + 1 -
/// depth` calls deep: a primary ray, at level zero, has at most `max_depth +
/// 1` calls below it, one inside the other.
pub proof fn lemma_recursion_bounded(
    scene: SceneView,
    origin: Vector3,
    direction: Vector3,
    depth: u32,
    params: ShadingParams,
)
    requires
        depth <= params.max_depth + 1,
    ensures
        spec_nesting(scene, origin, direction, depth, params) <= params.max_depth + 1 - depth,
    decreases params.max_depth + 1 - depth,
{
    if depth <= params.max_depth {
        let hit = brute_force_nearest(scene.cubes, scene.leaves, origin, direction);
        if hit.is_intersecting {
            let bent = spec_refract(direction, hit.normal, hit.material.refractive_index);
            lemma_recursion_bounded(
                scene,
                spec_lifted(hit),
                spec_reflect(direction, hit.normal),
                (depth + 1) as u32,
                params,
            );
            lemma_recursion_bounded(
                scene,
                spec_offset_origin(hit, bent),
                bent,
                (depth + 1) as u32,
                params,
            );
        }
    }
}

impl ShadingParams {
    /// Two levels of secondary rays, and shadows that take away 0.7 of a light.
    pub open spec fn spec_default() -> ShadingParams {
        ShadingParams { max_depth: 2, shadow_attenuation: Scalar { raw: 700_000_000 } }
    }
}

impl Default for ShadingParams {
    /// Two levels of secondary rays, and shadows that take away 0.7 of a
    /// light.
    fn default() -> (params: ShadingParams)
        ensures
            params == ShadingParams::spec_default(),
    {
        ShadingParams { max_depth: 2, shadow_attenuation: Scalar::from_raw(700_000_000) }
    }
}

/// The scene that the arguments of the shading functions stand for.
pub open spec fn scene_view(
    bvh: BVHNode,
    objects: Seq<Cube>,
    lights: Seq<Light>,
    textures: Seq<CpuTexture>,
    skybox: Option<&SkyMap>,
) -> SceneView {
    SceneView {
        cubes: objects,
        leaves: bvh.leaves(),
        lights,
        textures,
        sky: match skybox {
            Some(map) => Some(*map),
            None => None,
        },
    }
}

/// The part of the light's contribution that a shadow takes away at the
/// point of the hit: `shadow_attenuation` if a primitive lies between the
/// point and the light, else zero.
pub fn cast_shadow(
    intersect: &Intersect,
    light: &Light,
    bvh: &BVHNode,
    objects: &Vec<Cube>,
    params: &ShadingParams,
) -> (shadow: Scalar)
    requires
        bvh.well_formed(objects@),
    ensures
        forall|scene: SceneView|
            scene.cubes == objects@ && scene.leaves == bvh.leaves() ==> shadow
                == #[trigger] spec_shadow_intensity(scene, *intersect, *light, *params),
{
    let to_light: Vector3 = light.position.sub(intersect.point);
    let light_dir: Vector3 = to_light.normalized();
    let shadow_origin: Vector3 = intersect.point.add(
        intersect.normal.scale(Scalar::from_raw(ORIGIN_BIAS)),
    );
    let inv_dir: Vector3 = inverse_direction(&light_dir);
    let shadow_hit: Intersect = bvh.intersect(objects, &shadow_origin, &light_dir, &inv_dir);
    if shadow_hit.is_intersecting {
        let light_distance: Scalar = to_light.length();
        if shadow_hit.distance.raw < light_distance.raw {
            return params.shadow_attenuation;
        }
    }
    Scalar::zero()
}

/// The origin of a ray that leaves the surface in `ray_direction`.
pub fn offset_origin(intersect: &Intersect, ray_direction: &Vector3) -> (origin: Vector3)
    ensures
        origin == spec_offset_origin(*intersect, *ray_direction),
{
    let offset: Vector3 = intersect.normal.scale(Scalar::from_raw(ORIGIN_BIAS));
    if ray_direction.dot(intersect.normal).raw < 0 {
        intersect.point.sub(offset)
    } else {
        intersect.point.add(offset)
    }
}

/// The light gathered at the point of a hit from all the lights.
fn gather_light(
    intersect: &Intersect,
    view_direction: &Vector3,
    bvh: &BVHNode,
    objects: &Vec<Cube>,
    lights: &Vec<Light>,
    params: &ShadingParams,
    Ghost(scene): Ghost<SceneView>,
) -> (total: (Vector3, Vector3))
    requires
        bvh.well_formed(objects@),
        scene.cubes == objects@,
        scene.leaves == bvh.leaves(),
    ensures
        (Lighting { diffuse: total.0, specular: total.1 }) == spec_lighting(
            scene,
            *intersect,
            *view_direction,
            lights@,
            *params,
        ),
{
    let normal: Vector3 = intersect.normal;
    let mut total_diffuse: Vector3 = Vector3::zero();
    let mut total_specular: Vector3 = Vector3::zero();
    let mut i: usize = 0;
    while i < lights.len()
        invariant
            i <= lights.len(),
            bvh.well_formed(objects@),
            scene.cubes == objects@,
            scene.leaves == bvh.leaves(),
            normal == intersect.normal,
            (Lighting { diffuse: total_diffuse, specular: total_specular }) == spec_lighting(
                scene,
                *intersect,
                *view_direction,
                lights@.subrange(0, i as int),
                *params,
            ),
        decreases lights.len() - i,
    {
        let light: &Light = &lights[i];
        proof {
            assert(lights@.subrange(0, i + 1).drop_last() =~= lights@.subrange(0, i as int));
            assert(lights@.subrange(0, i + 1).last() == lights@[i as int]);
        }
        i = i + 1;
        let light_direction: Vector3 = light.position.sub(intersect.point).normalized();
        let diffuse_intensity: Scalar = normal.dot(light_direction).max(Scalar::zero());
        if diffuse_intensity.raw < LAMBERT_THRESHOLD {
            continue ;
        }
        let shadow_intensity: Scalar = cast_shadow(intersect, light, bvh, objects, params);
        let light_intensity: Scalar = light.intensity.mul(Scalar::one().sub(shadow_intensity));
        let final_diffuse_intensity: Scalar = diffuse_intensity.mul(light_intensity);
        total_diffuse = total_diffuse.add(light.color.scale(final_diffuse_intensity));
        let reflection_direction: Vector3 = reflect(&light_direction.neg(), &normal).normalized();
        let specular_intensity: Scalar = view_direction.dot(reflection_direction).max(
            Scalar::zero(),
        ).pow(intersect.material.specular).mul(light_intensity);
        total_specular = total_specular.add(light.color.scale(specular_intensity));
    }
    proof {
        assert(lights@.subrange(0, lights.len() as int) =~= lights@);
    }
    (total_diffuse, total_specular)
}

/// The base colour at the point of a hit.
fn base_color(intersect: &Intersect, texture_manager: &TextureManager) -> (color: Vector3)
    ensures
        color == spec_base_color(texture_manager@, *intersect),
{
    match intersect.material.texture {
        Some(handle) => {
            match texture_manager.get_texture(handle) {
                Some(texture) => {
                    let tx: u32 = texel_coordinate(intersect.u, texture.width);
                    let ty: u32 = texel_coordinate(intersect.v, texture.height);
                    texture_manager.get_pixel_color(handle, tx, ty)
                },
                None => intersect.material.diffuse,
            }
        },
        None => intersect.material.diffuse,
    }
}

/// The colour that arrives along the ray from `ray_origin` in
/// `ray_direction`, at recursion level `depth`; a primary ray has level zero.
pub fn cast_ray(
    ray_origin: &Vector3,
    ray_direction: &Vector3,
    bvh: &BVHNode,
    objects: &Vec<Cube>,
    lights: &Vec<Light>,
    depth: u32,
    texture_manager: &TextureManager,
    skybox: Option<&SkyMap>,
    params: &ShadingParams,
) -> (color: Vector3)
    requires
        bvh.well_formed(objects@),
    ensures
        color == spec_cast_ray(
            scene_view(*bvh, objects@, lights@, texture_manager@, skybox),
            *ray_origin,
            *ray_direction,
            depth,
            *params,
        ),
    decreases params.max_depth + 1 - depth,
{
    let ghost scene = scene_view(*bvh, objects@, lights@, texture_manager@, skybox);
    if depth > params.max_depth as u32 {
        return procedural_sky(*ray_direction, texture_manager, skybox);
    }
    let inv_dir: Vector3 = inverse_direction(ray_direction);
    let intersect: Intersect = bvh.intersect(objects, ray_origin, ray_direction, &inv_dir);
    if !intersect.is_intersecting {
        return procedural_sky(*ray_direction, texture_manager, skybox);
    }
    let view_direction: Vector3 = ray_origin.sub(intersect.point).normalized();
    let normal: Vector3 = intersect.normal;

    let (total_diffuse, total_specular) = gather_light(
        &intersect,
        &view_direction,
        bvh,
        objects,
        lights,
        params,
        Ghost(scene),
    );
    let diffuse_color: Vector3 = base_color(&intersect, texture_manager);
    let diffuse: Vector3 = diffuse_color.mul(total_diffuse);
    let specular: Vector3 = total_specular;

    let mut reflection_color: Vector3 = Vector3::zero();
    let reflectivity: Scalar = intersect.material.reflectivity;
    if reflectivity.raw > BOUNCE_THRESHOLD {
        let reflect_direction: Vector3 = reflect(ray_direction, &normal);
        let reflect_origin: Vector3 = intersect.point.add(
            normal.scale(Scalar::from_raw(ORIGIN_BIAS)),
        );
        reflection_color = cast_ray(
            &reflect_origin,
            &reflect_direction,
            bvh,
            objects,
            lights,
            depth + 1,
            texture_manager,
            skybox,
            params,
        );
    }
    let transparency: Scalar = intersect.material.transparency;
    let mut refraction_color: Vector3 = Vector3::zero();
    if transparency.raw > BOUNCE_THRESHOLD {
        match refracted_direction(ray_direction, &normal, intersect.material.refractive_index) {
            Some(refract_direction) => {
                let refract_origin: Vector3 = offset_origin(&intersect, &refract_direction);
                refraction_color = cast_ray(
                    &refract_origin,
                    &refract_direction,
                    bvh,
                    objects,
                    lights,
                    depth + 1,
                    texture_manager,
                    skybox,
                    params,
                );
            },
            None => {},
        }
    }
    let emissive: Vector3 = if intersect.material.emission_strength.raw > EMISSION_THRESHOLD {
        diffuse_color.mul(intersect.material.emission).scale(intersect.material.emission_strength)
    } else {
        Vector3::zero()
    };
    diffuse.scale(intersect.material.albedo[0]).add(
        specular.scale(intersect.material.albedo[1]),
    ).add(reflection_color.scale(reflectivity)).add(refraction_color.scale(transparency)).add(
        emissive,
    )
}

} // verus!
