//! The vocabulary of a simulation configuration: which engine runs it, with
//! which integration method, variant and reference implementation.

use vstd::prelude::*;

verus! {

/// Values in one particle state: position and velocity in three dimensions.
pub const INPUT_STATE_DIM: usize = 6;

/// Where the integration runs.
#[derive(Clone, Copy, Debug, PartialEq, Eq, Structural)]
pub enum Engine {
    CPU,
    GPU,
}

/// The Dormand-Prince integration method.
#[derive(Clone, Copy, Debug, PartialEq, Eq, Structural)]
pub enum Method {
    DOPR54,
    DOP853,
}

/// Which behaviour of the integrator is reproduced.
#[derive(Clone, Copy, Debug, PartialEq, Eq, Structural)]
pub enum Variant {
    Compatible,
    Modern,
}

/// The reference implementation whose arithmetic an integrator follows.
#[derive(Clone, Copy, Debug, PartialEq, Eq, Structural)]
pub enum Implementation {
    GALPY,
    SCIPY,
    DRIFT,
}

impl Default for Engine {
    fn default() -> (e: Engine)
        ensures
            e == Engine::GPU,
    {
        Engine::GPU
    }
}

impl Default for Method {
    fn default() -> (m: Method)
        ensures
            m == Method::DOPR54,
    {
        Method::DOPR54
    }
}

impl Default for Variant {
    fn default() -> (v: Variant)
        ensures
            v == Variant::Compatible,
    {
        Variant::Compatible
    }
}

impl Default for Implementation {
    fn default() -> (i: Implementation)
        ensures
            i == Implementation::GALPY,
    {
        Implementation::GALPY
    }
}

} // verus!
