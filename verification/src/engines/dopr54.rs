//! The host-side decisions of the adaptive GPU DOPR54 driver.

use vstd::prelude::*;

verus! {

/// Why a set of initial conditions cannot be integrated.
#[derive(Debug, PartialEq, Eq, Structural)]
pub enum ShapeError {
    /// The initial conditions are not an `(N, 6)` array.
    NotParticleStates,
    /// There are no particles.
    NoParticles,
}

/// The number of particles in initial conditions of array shape `shape`: they
/// must form an `(N, 6)` array with `N > 0`.
pub fn particle_count(shape: &[usize]) -> (r: Result<usize, ShapeError>)
    ensures
        r matches Ok(n) ==> shape@.len() == 2 && shape@[1] == 6 && n == shape@[0] && n > 0,
        r == Err::<usize, ShapeError>(ShapeError::NotParticleStates) <==> !(shape@.len() == 2 && shape@[1] == 6),
        r == Err::<usize, ShapeError>(ShapeError::NoParticles) <==> (shape@.len() == 2 && shape@[1] == 6 && shape@[0] == 0),
{
    if shape.len() != 2 || shape[1] != 6 {
        return Err(ShapeError::NotParticleStates);
    }
    let n = shape[0];
    if n == 0 {
        return Err(ShapeError::NoParticles);
    }
    Ok(n)
}

/// Whether the driver launches the kernel again after `launches` launches: some
/// particle is still active (its done flag is 0) and the launch cap is not reached.
pub fn keep_launching(done: &[u8], launches: usize, max_launches: usize) -> (r: bool)
    ensures
        r == ((exists|i: int| 0 <= i < done@.len() && done@[i] == 0) && launches < max_launches),
{
    let mut any_active = false;
    let mut i: usize = 0;
    while i < done.len()
        invariant
            i <= done@.len(),
            any_active == exists|j: int| 0 <= j < i && done@[j] == 0,
        decreases done@.len() - i,
    {
        if done[i] == 0 {
            any_active = true;
        }
        i += 1;
    }
    any_active && launches < max_launches
}

} // verus!
