//! Reading an output-time grid and tolerances from the values a caller gives.
//! `R` is the type of the real values.

use vstd::prelude::*;

verus! {

/// Evenly spaced sample points: `steps` points from `start` to `end`.
#[derive(Clone, Copy, Debug)]
pub struct Linspace<R> {
    pub start: R,
    pub end: R,
    pub steps: usize,
}

/// Relative and absolute integration tolerances.
#[derive(Clone, Copy, Debug)]
pub struct Tolerance<R> {
    pub rtol: R,
    pub atol: R,
}

/// Why sample points cannot describe an output-time grid.
#[derive(Debug, PartialEq, Eq, Structural)]
pub enum LinspaceError {
    /// Fewer than two points.
    TooFewPoints,
}

/// The grid that sample points describe: from the first point to the last,
/// one step per point. At least two points are needed.
pub fn linspace_from_samples<R: Copy>(samples: &[R]) -> (r: Result<Linspace<R>, LinspaceError>)
    ensures
        r is Err <==> samples@.len() < 2,
        r matches Ok(l) ==> l.start == samples@[0] && l.end == samples@.last() && l.steps == samples@.len(),
{
    let n = samples.len();
    if n < 2 {
        return Err(LinspaceError::TooFewPoints);
    }
    Ok(Linspace { start: samples[0], end: samples[n - 1], steps: n })
}

/// The tolerances that a single value gives: the same value for both.
pub fn tolerance_from_value<R: Copy>(value: R) -> (r: Tolerance<R>)
    ensures
        r.rtol == value,
        r.atol == value,
{
    Tolerance { rtol: value, atol: value }
}

} // verus!
