//! Voters, snapshots and assignments, each with its mathematical view.
use vstd::prelude::*;

verus! {

/// A weighted participant and the targets it approves of, in declared order.
#[derive(Debug)]
pub struct Voter {
    pub id: u64,
    pub stake: u64,
    pub approvals: Vec<u64>,
}

/// What a [`Voter`] is in contracts.
pub struct VoterView {
    pub id: u64,
    pub stake: u64,
    pub approvals: Seq<u64>,
}

impl View for Voter {
    type V = VoterView;

    open spec fn view(&self) -> VoterView {
        VoterView { id: self.id, stake: self.stake, approvals: self.approvals@ }
    }
}

/// The views of a sequence of voters, in the same order.
pub open spec fn voters_view(voters: Seq<Voter>) -> Seq<VoterView> {
    voters.map_values(|v: Voter| v@)
}

/// The frozen solver input: voters in significant order, targets, and how many to elect.
#[derive(Debug)]
pub struct Snapshot {
    pub voters: Vec<Voter>,
    pub targets: Vec<u64>,
    pub desired_winners: u32,
}

/// What a [`Snapshot`] is in contracts.
pub struct SnapshotView {
    pub voters: Seq<VoterView>,
    pub targets: Seq<u64>,
    pub desired_winners: u32,
}

impl View for Snapshot {
    type V = SnapshotView;

    open spec fn view(&self) -> SnapshotView {
        SnapshotView {
            voters: voters_view(self.voters@),
            targets: self.targets@,
            desired_winners: self.desired_winners,
        }
    }
}

/// One target that a voter backs, with the share of the voter's stake in parts per billion.
#[derive(Clone, Copy, Debug, PartialEq, Eq, Structural)]
pub struct Edge {
    pub target: u64,
    pub parts: u32,
}

/// A solver's statement of how one voter's stake is split, before it is checked.
#[derive(Debug)]
pub struct RatioAssignment {
    pub who: u64,
    pub distribution: Vec<Edge>,
}

/// What a [`RatioAssignment`] is in contracts.
pub struct RatioAssignmentView {
    pub who: u64,
    pub distribution: Seq<Edge>,
}

impl View for RatioAssignment {
    type V = RatioAssignmentView;

    open spec fn view(&self) -> RatioAssignmentView {
        RatioAssignmentView { who: self.who, distribution: self.distribution@ }
    }
}

/// What a solver hands back: the winners it elected and the split of each voter's stake.
#[derive(Debug)]
pub struct SolverOutput {
    pub winners: Vec<u64>,
    pub assignments: Vec<RatioAssignment>,
}

/// What a [`SolverOutput`] is in contracts.
pub struct SolverOutputView {
    pub winners: Seq<u64>,
    pub assignments: Seq<RatioAssignmentView>,
}

impl View for SolverOutput {
    type V = SolverOutputView;

    open spec fn view(&self) -> SolverOutputView {
        SolverOutputView {
            winners: self.winners@,
            assignments: self.assignments@.map_values(|a: RatioAssignment| a@),
        }
    }
}

/// One voter's checked allocation: its stake and the winners that share it.
#[derive(Debug)]
pub struct VoterAssignment {
    pub who: u64,
    pub stake: u64,
    pub distribution: Vec<Edge>,
}

/// What a [`VoterAssignment`] is in contracts.
pub struct VoterAssignmentView {
    pub who: u64,
    pub stake: u64,
    pub distribution: Seq<Edge>,
}

impl View for VoterAssignment {
    type V = VoterAssignmentView;

    open spec fn view(&self) -> VoterAssignmentView {
        VoterAssignmentView { who: self.who, stake: self.stake, distribution: self.distribution@ }
    }
}

/// The elected winners and, for each allocated voter, its split among them.
#[derive(Debug)]
pub struct Assignment {
    pub winners: Vec<u64>,
    pub voters: Vec<VoterAssignment>,
}

/// What an [`Assignment`] is in contracts.
pub struct AssignmentView {
    pub winners: Seq<u64>,
    pub voters: Seq<VoterAssignmentView>,
}

impl View for Assignment {
    type V = AssignmentView;

    open spec fn view(&self) -> AssignmentView {
        AssignmentView {
            winners: self.winners@,
            voters: self.voters@.map_values(|a: VoterAssignment| a@),
        }
    }
}

/// The number of parts that make a whole stake.
pub const PARTS_PER_WHOLE: u64 = 1_000_000_000;

/// The sum of the parts of the first `n` edges.
pub open spec fn parts_sum(edges: Seq<Edge>, n: nat) -> nat
    decreases n,
{
    if n == 0 || n > edges.len() {
        0
    } else {
        parts_sum(edges, (n - 1) as nat) + edges[n - 1].parts as nat
    }
}

impl VoterAssignmentView {
    /// Every edge leads to a winner, and the parts make exactly one whole.
    pub open spec fn wf(self, winners: Seq<u64>) -> bool {
        &&& forall|j: int| 0 <= j < self.distribution.len() ==> winners.contains(#[trigger] self.distribution[j].target)
        &&& parts_sum(self.distribution, self.distribution.len()) == PARTS_PER_WHOLE
    }
}

impl AssignmentView {
    /// No winner is named twice, and every voter's allocation is well formed with
    /// respect to the winners.
    pub open spec fn wf(self) -> bool {
        &&& self.winners.no_duplicates()
        &&& forall|i: int| 0 <= i < self.voters.len() ==> (#[trigger] self.voters[i]).wf(self.winners)
    }
}

/// Whether `x` occurs in `v`.
pub fn contains(v: &Vec<u64>, x: u64) -> (r: bool)
    ensures
        r == v@.contains(x),
{
    let mut i: usize = 0;
    while i < v.len()
        invariant
            i <= v.len(),
            forall|k: int| 0 <= k < i ==> v@[k] != x,
        decreases v.len() - i,
    {
        if v[i] == x {
            return true;
        }
        i += 1;
    }
    false
}

/// Whether every item of `v` occurs in `among`.
pub fn all_within(v: &Vec<u64>, among: &Vec<u64>) -> (r: bool)
    ensures
        r == (forall|k: int| 0 <= k < v@.len() ==> among@.contains(#[trigger] v@[k])),
{
    let mut i: usize = 0;
    while i < v.len()
        invariant
            i <= v.len(),
            forall|k: int| 0 <= k < i ==> among@.contains(#[trigger] v@[k]),
        decreases v.len() - i,
    {
        if !contains(among, v[i]) {
            return false;
        }
        i += 1;
    }
    true
}

/// Whether no item occurs twice in `v`.
pub fn all_distinct(v: &Vec<u64>) -> (r: bool)
    ensures
        r == v@.no_duplicates(),
{
    let mut i: usize = 0;
    while i < v.len()
        invariant
            i <= v.len(),
            forall|a: int, b: int| 0 <= a < i && 0 <= b < i && a != b ==> v@[a] != v@[b],
        decreases v.len() - i,
    {
        let mut j: usize = 0;
        while j < i
            invariant
                j <= i < v.len(),
                forall|b: int| 0 <= b < j ==> v@[b] != v@[i as int],
            decreases i - j,
        {
            if v[j] == v[i] {
                return false;
            }
            j += 1;
        }
        i += 1;
    }
    true
}

} // verus!
