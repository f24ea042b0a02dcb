//! The discrete core of a procedural terrain generator.
//!
//! Terrain is a rectangular grid mesh whose vertices are lifted by coherent
//! gradient noise and coloured by elevation band. This crate holds every
//! decision of that pipeline that is made on integers: the grid topology,
//! the permutation and gradient tables of the noise field, the mapping of a
//! sample point to its lattice cell and corner gradients, and the banding of
//! elevations. Real numbers cross the interface as IEEE 754 binary32 bit
//! patterns; the crate orders and floors them but performs no rounding
//! arithmetic of its own.

pub mod binary32;
pub mod noise;
pub mod plane;
pub mod random;
