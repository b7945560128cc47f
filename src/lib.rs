//! Two-dimensional convolution as an implicit matrix multiplication: problem description,
//! launch configuration, tile loaders and unloader, and the per-cube kernel, with contracts
//! that tie every output entry to the convolution's value. Also the one-hot nodes of the
//! model code generator.

pub mod config;
pub mod convolution;
pub mod kernel;
pub mod node;
pub mod problem;
pub mod tile;
pub mod variant;
