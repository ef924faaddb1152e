//! Scale-space building blocks: a row-major grid buffer and the stencil of
//! the explicit nonlinear diffusion step.

pub mod diffusion;
pub mod grid;
