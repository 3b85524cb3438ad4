//! Core of an analytic-surface path tracer, carried out in exact integer
//! arithmetic.
//!
//! Coordinates, ray parameters and color channels are plain integers; every
//! operation that is algebraically closed over the integers (vector algebra,
//! quadratic and quartic coefficient derivation, hit classification, nearest-hit
//! selection, the bounce policy, scanline partitioning) is implemented here with
//! exact contracts. Quantities that are irrational in general -- square roots,
//! unit normals, quartic roots -- are either reported through exact square-root
//! floors with two-sided bounds, or taken as arguments so that the surrounding
//! decision logic is verified for every value the numeric solver may produce.
//!
//! A scene is an ordered list of owned surfaces (a closed set of variants:
//! spheres and tori, dispatched by explicit match), each owning its material;
//! the scene query returns the globally nearest valid hit.

pub mod color;
pub mod config;
pub mod material;
pub mod point;
pub mod ray;
pub mod raytracer;
pub mod sphere;
pub mod torus;
