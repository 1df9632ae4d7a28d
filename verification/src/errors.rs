//! The ways in which proving and verifying fail.

use vstd::prelude::*;

verus! {

/// Why a proof could not be made, or why it was rejected.
#[derive(Clone, Copy, Debug, PartialEq, Eq, Structural)]
pub enum Error {
    /// A putative codeword is not in the code.
    ParityCheck,
    /// The subspace VOLE consistency check does not hold.
    ConsistencyCheck,
    /// A step that needs the VOLE was taken before the VOLE was made.
    VoleNotCompleted,
    /// The opened seeds do not give the seed commitment.
    SeedCommitment,
    /// The S matrix does not pass its consistency check.
    SMatrix,
    /// The Quicksilver check does not hold.
    Quicksilver,
    /// A public opening does not agree with the verifier's key.
    PublicOpening,
    /// A part of the proof has the wrong shape.
    Malformed,
}

impl Error {
    /// The message that goes with the error.
    pub open spec fn message_text(self) -> Seq<char> {
        match self {
            Error::ParityCheck => "Parity check failure"@,
            Error::ConsistencyCheck => "Consistency check fail!"@,
            Error::VoleNotCompleted => "VOLE must be completed before this step"@,
            Error::SeedCommitment => "Seed commitment is not a commitment to the seeds"@,
            Error::SMatrix => "failed to verify S matrix"@,
            Error::Quicksilver => "Proof verification failure"@,
            Error::PublicOpening => "Public opening does not match"@,
            Error::Malformed => "A part of the proof has the wrong shape"@,
        }
    }

    /// The message that goes with the error.
    pub fn message(self) -> (r: &'static str)
        ensures
            r@ == self.message_text(),
            self == Error::ParityCheck ==> r@ == "Parity check failure"@,
            self == Error::ConsistencyCheck ==> r@ == "Consistency check fail!"@,
            self == Error::VoleNotCompleted ==> r@ == "VOLE must be completed before this step"@,
            self == Error::SeedCommitment ==> r@
                == "Seed commitment is not a commitment to the seeds"@,
            self == Error::SMatrix ==> r@ == "failed to verify S matrix"@,
            self == Error::Quicksilver ==> r@ == "Proof verification failure"@,
            self == Error::PublicOpening ==> r@ == "Public opening does not match"@,
            self == Error::Malformed ==> r@ == "A part of the proof has the wrong shape"@,
    {
        match self {
            Error::ParityCheck => "Parity check failure",
            Error::ConsistencyCheck => "Consistency check fail!",
            Error::VoleNotCompleted => "VOLE must be completed before this step",
            Error::SeedCommitment => "Seed commitment is not a commitment to the seeds",
            Error::SMatrix => "failed to verify S matrix",
            Error::Quicksilver => "Proof verification failure",
            Error::PublicOpening => "Public opening does not match",
            Error::Malformed => "A part of the proof has the wrong shape",
        }
    }
}

} // verus!
