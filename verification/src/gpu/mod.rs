//! GPU support: dispatch plans of the compute kernels and the size-bucketed cache of device
//! buffers.

pub mod dispatch;
pub mod pool;
