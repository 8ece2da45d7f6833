//! Shape-level tensor engine with a reverse-mode autograd graph.

pub mod error;
pub mod gpu;
pub mod io;
pub mod shape;
pub mod autograd;
pub mod nn;
