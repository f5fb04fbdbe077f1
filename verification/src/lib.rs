//! Pressure diffusion over the cells of a closed, triangulated sphere.
//!
//! The crate holds the host-side logic of the simulation: the mesh and its
//! topology tables, the layout of the device buffers, the double-buffered
//! diffusion step, the per-vertex average and the readback cadence.
//!
//! A cell is a triangle of the mesh. Pressures are kept as whole numbers, one
//! 32-bit word for each cell as in the device buffers, so that every result
//! is exact and the same on every machine. Positions never enter: adjacency
//! is decided on vertex indices alone.

pub mod error;
pub mod table;
pub mod topology;
pub mod incidence;
pub mod icosphere;
pub mod mantle_grid;
pub mod pressure_buffers;
pub mod pressure_solver;
pub mod readback;
pub mod simulation;
pub mod gizmos;
