//! A small ray tracer over exact integer geometry.
//!
//! The library models points and directions as 3-component integer vectors,
//! spheres as center/radius pairs with 8-bit shading attributes, and renders a
//! scene by casting one ray per pixel from the origin through a virtual
//! viewport, selecting the nearest sphere each ray strikes. All arithmetic is
//! exact integer arithmetic; square roots are integer square roots (floor) and
//! divisions truncate toward zero, and every contract states the resulting
//! values precisely.

pub mod color;
pub mod geometry;
pub mod scene;

pub use color::Color;
pub use geometry::Pt;
pub use geometry::Ray;
pub use geometry::Renderable;
pub use geometry::Sphere;
pub use geometry::Vec3;
pub use scene::Capture;
pub use scene::Scene;
