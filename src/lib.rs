//! A small geometry kernel on an integer lattice: an incrementally grown
//! bounding cube and 4x4 affine transforms applied to points, homogeneous
//! vectors, planes and frusta.

pub mod bcube;
pub mod geom;
pub mod mat4;

pub use bcube::BCube;
pub use geom::{BBox, Frustum, Plane, Vec3, Vec4};
pub use mat4::Mat4;
