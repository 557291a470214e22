//! Orbit-integration planning and bookkeeping for `drift`: the decisions and
//! data layouts around the floating-point integrators, with their contracts.

pub mod config;
pub mod dispatch;
pub mod engines;
pub mod dopr54_cpu;
pub mod dopr54_cpu_no_libc;
pub mod index_helpers;
pub mod integrators;
pub mod interface;
pub mod recipe;
