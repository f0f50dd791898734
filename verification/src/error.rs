//! The ways in which a run of the pipeline can fail.
use vstd::prelude::*;

verus! {

/// Every failure is reported under exactly one of these kinds.
#[derive(Clone, Copy, Debug, PartialEq, Eq, Structural)]
pub enum PipelineError {
    /// The snapshot breaks one of its invariants.
    MalformedSnapshot,
    /// The authority could not be reached.
    ChainUnavailable,
    /// The point-in-time reference does not name one state.
    AmbiguousReference,
    /// The solver produced no assignment that elects the desired number of winners.
    Infeasible,
    /// The byte budget is not met even with every voter removed.
    TrimmingExhausted,
    /// The score is worse than the minimum that the authority demands.
    ScoreBelowThreshold,
}

impl PipelineError {
    /// The text under which each kind of failure is reported.
    pub open spec fn text(self) -> Seq<char> {
        match self {
            PipelineError::MalformedSnapshot => "malformed snapshot"@,
            PipelineError::ChainUnavailable => "chain unavailable"@,
            PipelineError::AmbiguousReference => "ambiguous reference"@,
            PipelineError::Infeasible => "infeasible"@,
            PipelineError::TrimmingExhausted => "trimming exhausted"@,
            PipelineError::ScoreBelowThreshold => "score below threshold"@,
        }
    }

    /// A short message that names the kind of failure: the text of that kind.
    pub fn message(&self) -> (s: &'static str)
        ensures
            s@ == self.text(),
    {
        match self {
            PipelineError::MalformedSnapshot => "malformed snapshot",
            PipelineError::ChainUnavailable => "chain unavailable",
            PipelineError::AmbiguousReference => "ambiguous reference",
            PipelineError::Infeasible => "infeasible",
            PipelineError::TrimmingExhausted => "trimming exhausted",
            PipelineError::ScoreBelowThreshold => "score below threshold",
        }
    }
}

/// The message tells the kinds of failure apart: two kinds with the same text are
/// the same kind.
pub proof fn lemma_texts_differ(a: PipelineError, b: PipelineError)
    requires
        a.text() == b.text(),
    ensures
        a == b,
{
    reveal_strlit("malformed snapshot");
    reveal_strlit("chain unavailable");
    reveal_strlit("ambiguous reference");
    reveal_strlit("infeasible");
    reveal_strlit("trimming exhausted");
    reveal_strlit("score below threshold");
    assert("malformed snapshot"@.len() == 18 && "malformed snapshot"@[0] == 'm');
    assert("chain unavailable"@.len() == 17);
    assert("ambiguous reference"@.len() == 19);
    assert("infeasible"@.len() == 10);
    assert("trimming exhausted"@.len() == 18 && "trimming exhausted"@[0] == 't');
    assert("score below threshold"@.len() == 21);
}

} // verus!
