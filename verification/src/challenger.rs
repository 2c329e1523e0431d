use vstd::prelude::*;
use crate::error::SolinaError;

verus! {

/// Organizes a solving challenge over submitted intents: implementations
/// collect intents into batches, score proposed solutions, and verify that a
/// solver's published solution is admissible.
pub trait ChallengeOrganizer<Addr, Int>: Sized {
    type Score;

    type Solution;

    /// Checks a solver's published solution; an inadmissible one is rejected
    /// with the verification failure.
    fn verify_solution(&self, solver_addr: Addr, solution: Self::Solution) -> Result<
        (),
        SolinaError,
    >;

    /// The next batch of intents to put up for solving.
    fn propose_batch_intent(&self) -> Vec<Int>;

    /// The score a solution earns in the challenge.
    fn compute_solution_score(&self, solution: Self::Solution) -> Self::Score;
}

} // verus!
