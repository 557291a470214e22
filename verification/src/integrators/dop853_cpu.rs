use vstd::prelude::*;

verus! {

/// Opaque handle to the potential parameters that an integrator hands, unread,
/// to its force callback.
#[allow(non_camel_case_types)]
pub struct potentialArg {
    _private: [u8; 0],
}

} // verus!
