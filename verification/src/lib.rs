//! Integer-valued core of a small path tracer: the work split of an image
//! among render threads, the Perlin lattice permutation tables and their
//! hashing, random integer draws, the scene object list and the
//! bounding-volume-hierarchy layout. Everything that computes in floating
//! point lives in the application around this library.

pub mod bvh;
pub mod hittable_list;
pub mod mod_vec3;
pub mod perlin;
pub mod random;
pub mod sections;
pub mod tool_func;
