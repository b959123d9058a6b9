//! A ray tracer for scenes of axis-aligned boxes, verified with Verus.
//!
//! A scene is a list of boxes with materials and a list of point lights. The
//! boxes are held in a bounding volume hierarchy ([`bvh`]), which finds the
//! nearest box on a ray without trying them all. The shading engine
//! ([`shading`]) follows a ray to the first surface and adds up direct light
//! with shadows, mirror reflection, refraction by Snell's law and emission,
//! tracing secondary rays down to a fixed depth. The renderer ([`render`])
//! sends one primary ray through each pixel; it cuts the image into bands of
//! rows that can be rendered independently and puts them together in a frame
//! buffer. A scene can be read from text ([`scene_text`]). One scene is worked
//! out in general: a box seen from the front ([`front_view`]).
//!
//! # Numbers
//!
//! All quantities are fixed-point scalars ([`scalar::Scalar`]): signed 64-bit
//! counts of billionths. Sums and differences are exact; products, quotients
//! and square roots are rounded toward zero; a result that does not fit is
//! clamped. No operation fails: a quotient by zero is the extreme scalar with
//! the sign of the dividend, and in the slab test ([`slab`]) an extreme
//! reciprocal stands for an infinite one, so that a ray that runs along a face
//! of a box needs no special case.
//!
//! The library computes no angles. A turn is given by its cosine and sine
//! ([`camera::Rotation`]), a field of view by the tangent of its half
//! ([`render::RenderConfig`]), and an environment map comes with the limits
//! of its rows and columns ([`sky::SkyMap`]), among which the texel of a
//! direction is found by comparing.
//!
//! # What is proved
//!
//! Each function has a contract that gives its result as a function of its
//! arguments. Beyond that, among others:
//!
//! - merging bounds is commutative and associative, and the merged box
//!   encloses both ([`bvh::lemma_merge_commutative`],
//!   [`bvh::lemma_merge_associative`], [`bvh::lemma_merge_encloses`]);
//! - a ray along an axis through the inside of a box, as through its centre,
//!   meets it, and hits it exactly if the box does not lie behind
//!   ([`cube::lemma_axis_ray`], [`cube::lemma_ray_through_centre`]); a ray
//!   that points away from a box hits nothing
//!   ([`cube::lemma_ray_pointing_away`]);
//! - the normal of a hit is always one of the six normals of the faces of
//!   the box ([`cube::lemma_hit_normal`]), and where a ray from outside
//!   strikes the box, the point of the hit lies on the plane of that face
//!   but for rounding ([`cube::lemma_entry_point_on_face`]);
//! - the hierarchy returns the brute-force nearest hit
//!   ([`bvh::BVHNode::intersect`], [`bvh::lemma_brute_force_is_nearest`]);
//! - the bounds at the root and the set of leaves do not depend on the order
//!   in which the primitives are given ([`bvh::lemma_build_order_independent`]),
//!   and the tree is balanced ([`bvh::lemma_median_split_height`]);
//! - a reflection differs from the exact one by less than seven billionths
//!   in each component ([`snell::lemma_reflect_is_accurate`]); reflecting
//!   twice at a face of a box gives the vector back, with its length
//!   ([`snell::lemma_reflect_involution`]);
//! - at any normal of the exact length one, a reflection keeps the length
//!   and mirrors what lies along the normal, and reflecting twice gives the
//!   vector back, all three but for rounding
//!   ([`snell::lemma_reflect_keeps_length`],
//!   [`snell::lemma_reflect_of_unit_is_unit`],
//!   [`snell::lemma_reflect_mirrors_dot`], [`snell::lemma_reflect_twice`]);
//!   at a normal that is a unit vector within a tolerance, as a vector
//!   scaled to unit length is, a reflection keeps the length and reflecting
//!   twice gives the vector back, but for rounding and the tolerance
//!   ([`snell::lemma_reflect_keeps_length_within`],
//!   [`snell::lemma_reflect_twice_within`],
//!   [`snell::lemma_normalized_is_nearly_unit`]);
//! - a refractive index of one bends a ray by rounding alone, and not at
//!   all where the square of the cosine needs no rounding
//!   ([`snell::lemma_no_bending_but_for_rounding`],
//!   [`snell::lemma_no_bending`]);
//! - a number of a scene text is its digits times the power of ten that its
//!   point and its exponent give, rounded toward zero
//!   ([`scene_text::lemma_shifted_is_scaled`]);
//! - the primary ray through the middle of an image of a box seen from the
//!   front strikes the front face of the box, for every image up to ten
//!   thousand pixels each way, of even width and height or of twelve rows or
//!   more
//!   ([`front_view::lemma_middle_pixel_hits`]), and the top and the bottom
//!   row of the image, with its four corners, show nothing but sky
//!   ([`front_view::lemma_edge_rows_are_sky`]);
//! - the recursion of the shading engine is at most one level deeper than
//!   its deepest level ([`shading::lemma_recursion_bounded`]);
//! - among the limits of an environment map that rise or fall, the texel of
//!   a direction is the one whose limits enclose it
//!   ([`sky::lemma_row_encloses`], [`sky::lemma_column_encloses`]);
//! - the bands of an image cover each row once
//!   ([`render::lemma_banding_partitions`]), and the rendered image does not
//!   depend on their number ([`render::render`]).

pub mod scalar;
pub mod vector;
pub mod material;
pub mod light;
pub mod slab;
pub mod ray_intersect;
pub mod cube;
pub mod bvh;
pub mod sorting;
pub mod hull;
pub mod snell;
pub mod textures;
pub mod sky;
pub mod shading;
pub mod camera;
pub mod framebuffer;
pub mod render;
pub mod front_view;
pub mod scene;
pub mod scene_text;

pub use render::{render, render_row_range, RenderConfig};
pub use scene::SceneObject;
pub use shading::cast_ray;
