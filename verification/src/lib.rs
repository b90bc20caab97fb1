//! The decision core of a ray tracer: which surface a ray meets first, how the
//! spans of two solids combine, how a triangle mesh is partitioned and walked,
//! and when a traced ray stops.
//!
//! The library never does arithmetic on a distance or a coordinate. It
//! compares them and selects among them, so each is held as a
//! [`span::Dist`]: a signed integer whose order is the order of the numbers
//! it stands for, with zero for zero. Where an algorithm needs arithmetic in
//! the middle (the middle of a box, the colour of a surface), the caller
//! hands it in as a function, and the contract says what the algorithm does
//! with whatever that function gave.
//!
//! - [`span`]: distances and the span of a ray inside a solid.
//! - [`bounds`]: points and axis-aligned boxes.
//! - [`shape`]: the hit tests of sphere, bounded plane and triangle.
//! - [`cube`]: the box shape, from the hits on its six faces.
//! - [`csg`]: intersection and difference of two solids along a ray.
//! - [`mesh`]: the layout of a loaded mesh and the box around it.
//! - [`partition`]: cuts through a mesh and the order in which axes are tried.
//! - [`split`]: the partition tree, grown and walked.
//! - [`trace`]: nearest object, shadows and the recursion over reflections.
//! - [`render`]: the pixels of an image.

pub mod bounds;
pub mod csg;
pub mod cube;
pub mod mesh;
pub mod partition;
pub mod render;
pub mod shape;
pub mod span;
pub mod split;
pub mod trace;
