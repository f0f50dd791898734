//! The final bundle of assignment, score and round, and its encoding.
use vstd::prelude::*;
use crate::model::{Assignment, AssignmentView, VoterAssignmentView};
use crate::score::{compute_score, score_of, Score};

verus! {

/// Assignment, score and round: the unit whose encoded length the budget is held against.
#[derive(Debug)]
pub struct PackagedSolution {
    pub assignment: Assignment,
    pub score: Score,
    pub round: u32,
}

/// What a [`PackagedSolution`] is in contracts.
pub struct PackagedSolutionView {
    pub assignment: AssignmentView,
    pub score: Score,
    pub round: u32,
}

impl View for PackagedSolution {
    type V = PackagedSolutionView;

    open spec fn view(&self) -> PackagedSolutionView {
        PackagedSolutionView { assignment: self.assignment@, score: self.score, round: self.round }
    }
}

/// The bundle that an assignment makes in a round: its score is the assignment's own.
pub open spec fn packaged(a: AssignmentView, round: u32) -> PackagedSolutionView {
    PackagedSolutionView { assignment: a, score: score_of(a), round }
}

/// The number of bytes that the length of a collection of `n` items takes.
pub open spec fn prefix_length(n: nat) -> nat {
    if n < 64 {
        1
    } else if n < 16_384 {
        2
    } else if n < 1_073_741_824 {
        4
    } else {
        5
    }
}

/// The number of bytes that the first `n` voters take: for each, identity and
/// stake of eight bytes each, the length of its edges, and twelve bytes an edge.
pub open spec fn rows_length(voters: Seq<VoterAssignmentView>, n: nat) -> nat
    decreases n,
{
    if n == 0 || n > voters.len() {
        0
    } else {
        let edges = voters[n - 1].distribution.len();
        rows_length(voters, (n - 1) as nat) + 16 + prefix_length(edges) + 12 * edges
    }
}

/// The number of bytes that a bundle takes when encoded: the winners with their
/// length, the voters with theirs, 48 bytes of score and four of round.
pub open spec fn encoded_length(p: PackagedSolutionView) -> nat {
    prefix_length(p.assignment.winners.len()) + 8 * p.assignment.winners.len() + prefix_length(
        p.assignment.voters.len(),
    ) + rows_length(p.assignment.voters, p.assignment.voters.len()) + 52
}

/// Whether a bundle can be encoded: none of its collections has more items than
/// a length of 32 bits can count.
pub open spec fn encodable(p: PackagedSolutionView) -> bool {
    &&& p.assignment.winners.len() <= u32::MAX
    &&& p.assignment.voters.len() <= u32::MAX
    &&& forall|i: int| 0 <= i < p.assignment.voters.len() ==> (#[trigger] p.assignment.voters[i]).distribution.len() <= u32::MAX
}

/// The SCALE encoding of a bundle: winners, then each voter's identity, stake and
/// edges, then the three score components, then the round.
pub uninterp spec fn scale_encoding(p: PackagedSolutionView) -> Seq<u8>;

/// Calls `parity_scale_codec::Encode::encode` on the bundle written as a tuple of
/// integers and vectors. The contract names the bytes as a function of the bundle's
/// view and states how many they are: integers take their fixed width, a vector
/// its compact length and then its items. The encoder panics on a vector of more
/// than `u32::MAX` items; such bundles are left out.
#[verifier::external_body]
fn scale_encode(p: &PackagedSolution) -> (bytes: Vec<u8>)
    requires
        encodable(p@),
    ensures
        bytes@ == scale_encoding(p@),
        bytes@.len() == encoded_length(p@),
{
    let voters: Vec<(u64, u64, Vec<(u64, u32)>)> = p.assignment.voters.iter().map(|v| (v.who, v.stake, v.distribution.iter().map(|e| (e.target, e.parts)).collect())).collect();
    let score = (p.score.minimal_stake, p.score.sum_stake, p.score.sum_stake_squared);
    parity_scale_codec::Encode::encode(&(&p.assignment.winners, voters, score, p.round))
}

/// No bundle takes fewer than 54 bytes.
pub proof fn lemma_encoded_length_at_least(p: PackagedSolutionView)
    ensures
        encoded_length(p) >= 54,
{
}

impl PackagedSolution {
    /// Scores an assignment and bundles it with the round. It cannot fail.
    pub fn new(assignment: Assignment, round: u32) -> (p: PackagedSolution)
        ensures
            p@ == packaged(assignment@, round),
    {
        let score = compute_score(&assignment);
        PackagedSolution { assignment, score, round }
    }

    /// Whether the bundle can be encoded.
    pub fn is_encodable(&self) -> (r: bool)
        ensures
            r == encodable(self@),
    {
        if self.assignment.winners.len() > u32::MAX as usize || self.assignment.voters.len() > u32::MAX as usize {
            return false;
        }
        let mut i: usize = 0;
        while i < self.assignment.voters.len()
            invariant
                i <= self.assignment.voters.len(),
                forall|k: int| 0 <= k < i ==> (#[trigger] self@.assignment.voters[k]).distribution.len() <= u32::MAX,
            decreases self.assignment.voters.len() - i,
        {
            assert(self@.assignment.voters[i as int] == self.assignment.voters@[i as int]@);
            if self.assignment.voters[i].distribution.len() > u32::MAX as usize {
                return false;
            }
            i += 1;
        }
        true
    }

    /// The bytes of the bundle; `None` exactly where it cannot be encoded.
    pub fn encode(&self) -> (r: Option<Vec<u8>>)
        ensures
            r is Some == encodable(self@),
            r matches Some(bytes) ==> bytes@ == scale_encoding(self@) && bytes@.len() == encoded_length(self@),
    {
        if self.is_encodable() {
            Some(scale_encode(self))
        } else {
            None
        }
    }

    /// The number of bytes that the bundle takes when encoded; `None` exactly
    /// where it cannot be encoded.
    pub fn encoded_len(&self) -> (r: Option<usize>)
        ensures
            r is Some == encodable(self@),
            r matches Some(n) ==> n == scale_encoding(self@).len() && n == encoded_length(self@),
    {
        if self.is_encodable() {
            Some(scale_encode(self).len())
        } else {
            None
        }
    }
}

} // verus!
