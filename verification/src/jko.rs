//! The Jordan-Kinderlehrer-Otto trajectory.
//!
//! A JKO gradient flow evolves a distribution by repeated time steps. The
//! step itself (a Sinkhorn plan and a shift of the support points) works on
//! floating-point data and is supplied by the caller; this module runs the
//! flow and proves the shape of the trajectory it returns.

use vstd::prelude::*;

verus! {

/// Run a JKO gradient flow for `steps` steps.
///
/// The trajectory starts with `initial` and has `steps + 1` entries; entry
/// `k` (for `1 <= k <= steps`) is what `step` returns for entry `k - 1`.
pub fn jko_flow<D, F: Fn(&D) -> D>(initial: D, steps: usize, step: F) -> (trajectory: Vec<D>)
    requires
        forall|d: &D| #[trigger] step.requires((d,)),
    ensures
        trajectory.len() == steps + 1,
        trajectory[0] == initial,
        forall|k: int|
            1 <= k <= steps ==> step.ensures((&trajectory[k - 1],), #[trigger] trajectory[k]),
{
    let mut trajectory: Vec<D> = Vec::new();
    trajectory.push(initial);
    let mut i: usize = 0;
    while i < steps
        invariant
            i <= steps,
            trajectory.len() == i + 1,
            trajectory[0] == initial,
            forall|d: &D| #[trigger] step.requires((d,)),
            forall|k: int|
                1 <= k <= i ==> step.ensures((&trajectory[k - 1],), #[trigger] trajectory[k]),
        decreases steps - i,
    {
        let next = step(&trajectory[i]);
        trajectory.push(next);
        i = i + 1;
    }
    trajectory
}

} // verus!
