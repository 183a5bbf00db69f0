//! Core logic of a small real-time polyhedron viewer.
//!
//! The viewer renders a regular tetrahedron under a dual-angle
//! azimuth/elevation projection, with keyboard-driven camera rotation and
//! object translation.  The floating-point transform itself and every call
//! into the rendering backend live in the surrounding application; this
//! crate holds the discrete core that is worth proving:
//!
//! * [`painter`] — the back-to-front draw plan: depth-surrogate ordering,
//!   the all-vertices-on-screen cull rule, and the point-brightness falloff;
//! * [`geometry`] — the combinatorial structure of the tetrahedron: which
//!   vertex triples form faces, which pairs form edges, and the subdivision
//!   steps of the wireframe point cloud;
//! * [`input`] — the per-frame key decisions: which pressed keys move which
//!   camera angle or object axis, and in which direction.

pub mod geometry;
pub mod input;
pub mod painter;
