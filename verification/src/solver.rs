//! The uniform face of the solving algorithms: one call in, one checked assignment out.
use vstd::prelude::*;
use crate::error::PipelineError;
use crate::model::{
    all_distinct, all_within, contains, voters_view, Assignment, AssignmentView, Edge, RatioAssignment, RatioAssignmentView,
    Snapshot, SnapshotView, SolverOutput, SolverOutputView, Voter, VoterAssignment,
    VoterAssignmentView, VoterView, parts_sum, PARTS_PER_WHOLE,
};

verus! {

/// The algorithms that can be chosen, each with its number of balancing iterations.
#[derive(Clone, Copy, Debug, PartialEq, Eq, Structural)]
pub enum Solver {
    SeqPhragmen { iterations: usize },
    PhragMMS { iterations: usize },
}

/// The error type of the election algorithms; nothing is read from it.
#[verifier::external_type_specification]
#[verifier::external_body]
pub struct ExElectionError(sp_npos_elections::Error);

/// What sequential Phragmen returns on these inputs; `None` where it reports an error.
pub uninterp spec fn seq_phragmen_outcome(to_elect: usize, targets: Seq<u64>, voters: Seq<VoterView>, iterations: usize, tolerance: u128) -> Option<SolverOutputView>;

/// What PhragMMS returns on these inputs; `None` where it reports an error.
pub uninterp spec fn phragmms_outcome(to_elect: usize, targets: Seq<u64>, voters: Seq<VoterView>, iterations: usize, tolerance: u128) -> Option<SolverOutputView>;

/// Calls `sp_npos_elections::seq_phragmen` with identities of 64 bits and ratios in
/// parts per billion. Nothing is proved of the algorithm: the contract only names
/// its result as a function of the arguments, which it is, as the algorithm reads
/// no state but its inputs. Winners come back without their backing stake, ratios
/// as their number of parts.
#[verifier::external_body]
fn seq_phragmen(to_elect: usize, targets: &Vec<u64>, voters: &Vec<Voter>, iterations: usize, tolerance: u128) -> (r: Result<SolverOutput, sp_npos_elections::Error>)
    ensures
        r matches Ok(out) ==> seq_phragmen_outcome(to_elect, targets@, voters_view(voters@), iterations, tolerance) == Some(out@),
        r is Err ==> seq_phragmen_outcome(to_elect, targets@, voters_view(voters@), iterations, tolerance) is None,
{
    let input: Vec<(u64, u64, Vec<u64>)> = voters.iter().map(|v| (v.id, v.stake, v.approvals.clone())).collect();
    let config = sp_npos_elections::BalancingConfig { iterations, tolerance };
    let found = sp_npos_elections::seq_phragmen::<u64, sp_arithmetic::Perbill>(to_elect, targets.clone(), input, Some(config))?;
    Ok(SolverOutput {
        winners: found.winners.iter().map(|w| w.0).collect(),
        assignments: found.assignments.iter().map(|a| RatioAssignment {
            who: a.who,
            distribution: a.distribution.iter().map(|d| Edge { target: d.0, parts: d.1.deconstruct() }).collect(),
        }).collect(),
    })
}

/// Calls `sp_npos_elections::phragmms` with identities of 64 bits and ratios in
/// parts per billion. Nothing is proved of the algorithm: the contract only names
/// its result as a function of the arguments. Winners come back without their
/// backing stake, ratios as their number of parts.
#[verifier::external_body]
fn phragmms(to_elect: usize, targets: &Vec<u64>, voters: &Vec<Voter>, iterations: usize, tolerance: u128) -> (r: Result<SolverOutput, sp_npos_elections::Error>)
    ensures
        r matches Ok(out) ==> phragmms_outcome(to_elect, targets@, voters_view(voters@), iterations, tolerance) == Some(out@),
        r is Err ==> phragmms_outcome(to_elect, targets@, voters_view(voters@), iterations, tolerance) is None,
{
    let input: Vec<(u64, u64, Vec<u64>)> = voters.iter().map(|v| (v.id, v.stake, v.approvals.clone())).collect();
    let config = sp_npos_elections::BalancingConfig { iterations, tolerance };
    let found = sp_npos_elections::phragmms::<u64, sp_arithmetic::Perbill>(to_elect, targets.clone(), input, Some(config))?;
    Ok(SolverOutput {
        winners: found.winners.iter().map(|w| w.0).collect(),
        assignments: found.assignments.iter().map(|a| RatioAssignment {
            who: a.who,
            distribution: a.distribution.iter().map(|d| Edge { target: d.0, parts: d.1.deconstruct() }).collect(),
        }).collect(),
    })
}

/// The index of the first voter at or after `from` whose identity is `who`.
pub open spec fn first_index(voters: Seq<VoterView>, who: u64, from: nat) -> Option<nat>
    decreases voters.len() - from,
{
    if from >= voters.len() {
        None
    } else if voters[from as int].id == who {
        Some(from)
    } else {
        first_index(voters, who, from + 1)
    }
}

/// The stake of the first voter whose identity is `who`.
pub open spec fn stake_of(voters: Seq<VoterView>, who: u64) -> Option<u64> {
    match first_index(voters, who, 0) {
        Some(i) => Some(voters[i as int].stake),
        None => None,
    }
}

/// A solver's split for one voter, with the voter's stake beside it.
pub open spec fn staked(a: RatioAssignmentView, voters: Seq<VoterView>) -> VoterAssignmentView {
    VoterAssignmentView {
        who: a.who,
        stake: match stake_of(voters, a.who) {
            Some(s) => s,
            None => 0,
        },
        distribution: a.distribution,
    }
}

/// The split names a voter of the snapshot, leads only to winners and is whole.
pub open spec fn ratio_ok(a: RatioAssignmentView, winners: Seq<u64>, voters: Seq<VoterView>) -> bool {
    stake_of(voters, a.who) is Some && staked(a, voters).wf(winners)
}

/// The voter named `earlier` stands before the voter named `later` in the snapshot.
pub open spec fn stands_before(voters: Seq<VoterView>, earlier: u64, later: u64) -> bool {
    match (first_index(voters, earlier, 0), first_index(voters, later, 0)) {
        (Some(a), Some(b)) => a < b,
        _ => false,
    }
}

/// The splits name voters of the snapshot in snapshot order, so none twice.
pub open spec fn in_snapshot_order(rows: Seq<RatioAssignmentView>, voters: Seq<VoterView>) -> bool {
    forall|i: int| 0 < i < rows.len() ==> stands_before(voters, rows[i - 1].who, (#[trigger] rows[i]).who)
}

/// Every allocated voter is a voter of the snapshot with its stake, and the
/// allocated voters stand in snapshot order, so none is allocated twice.
#[verifier::opaque]
pub open spec fn follows_snapshot(a: AssignmentView, voters: Seq<VoterView>) -> bool {
    &&& forall|k: int| 0 <= k < a.voters.len() ==> stake_of(voters, (#[trigger] a.voters[k]).who) == Some(a.voters[k].stake)
    &&& forall|k: int| 0 < k < a.voters.len() ==> stands_before(voters, a.voters[k - 1].who, (#[trigger] a.voters[k]).who)
}

/// The output elects exactly the desired number of winners, each a target of the
/// snapshot and none twice, and the splits name voters in snapshot order and are
/// each in order.
pub open spec fn acceptable(out: SolverOutputView, snap: SnapshotView) -> bool {
    &&& out.winners.len() == snap.desired_winners
    &&& out.winners.no_duplicates()
    &&& in_snapshot_order(out.assignments, snap.voters)
    &&& forall|k: int| 0 <= k < out.winners.len() ==> snap.targets.contains(#[trigger] out.winners[k])
    &&& forall|i: int| 0 <= i < out.assignments.len() ==> ratio_ok(#[trigger] out.assignments[i], out.winners, snap.voters)
}

/// What becomes of a solver's output: the assignment it describes, or `Infeasible`.
pub open spec fn adopted(out: SolverOutputView, snap: SnapshotView) -> Result<AssignmentView, PipelineError> {
    if acceptable(out, snap) {
        Ok(AssignmentView {
            winners: out.winners,
            voters: out.assignments.map_values(|a: RatioAssignmentView| staked(a, snap.voters)),
        })
    } else {
        Err(PipelineError::Infeasible)
    }
}

/// The index of the first voter whose identity is `who`.
pub fn find_voter(voters: &Vec<Voter>, who: u64) -> (r: Option<usize>)
    ensures
        r is Some == first_index(voters_view(voters@), who, 0) is Some,
        r matches Some(i) ==> first_index(voters_view(voters@), who, 0) == Some(i as nat) && i < voters@.len(),
{
    let ghost vs = voters_view(voters@);
    let mut i: usize = 0;
    while i < voters.len()
        invariant
            i <= voters.len(),
            vs == voters_view(voters@),
            first_index(vs, who, 0) == first_index(vs, who, i as nat),
        decreases voters.len() - i,
    {
        assert(vs[i as int] == voters@[i as int]@);
        if voters[i].id == who {
            return Some(i);
        }
        i += 1;
    }
    None
}

/// The stake of the first voter whose identity is `who`.
pub fn find_stake(voters: &Vec<Voter>, who: u64) -> (r: Option<u64>)
    ensures
        r == stake_of(voters_view(voters@), who),
{
    let ghost vs = voters_view(voters@);
    let mut i: usize = 0;
    while i < voters.len()
        invariant
            i <= voters.len(),
            vs == voters_view(voters@),
            first_index(vs, who, 0) == first_index(vs, who, i as nat),
        decreases voters.len() - i,
    {
        assert(vs[i as int] == voters@[i as int]@);
        if voters[i].id == who {
            return Some(voters[i].stake);
        }
        i += 1;
    }
    None
}

/// Checks one split and sets the voter's stake beside it.
fn stake_one(a: &RatioAssignment, winners: &Vec<u64>, voters: &Vec<Voter>) -> (r: Option<VoterAssignment>)
    ensures
        r is Some == ratio_ok(a@, winners@, voters_view(voters@)),
        r matches Some(v) ==> v@ == staked(a@, voters_view(voters@)),
{
    let stake = match find_stake(voters, a.who) {
        Some(s) => s,
        None => {
            return None;
        },
    };
    let mut distribution: Vec<Edge> = Vec::new();
    let mut total: u128 = 0;
    let mut j: usize = 0;
    while j < a.distribution.len()
        invariant
            j <= a.distribution.len(),
            distribution@ == a.distribution@.take(j as int),
            total == parts_sum(a.distribution@, j as nat),
            total <= j * 0xffff_ffff,
            forall|k: int| 0 <= k < j ==> winners@.contains(#[trigger] a.distribution@[k].target),
        decreases a.distribution.len() - j,
    {
        let e: Edge = a.distribution[j];
        if !contains(winners, e.target) {
            return None;
        }
        total = total + e.parts as u128;
        distribution.push(e);
        assert(distribution@ =~= a.distribution@.take(j + 1));
        j += 1;
    }
    assert(a.distribution@.take(a.distribution@.len() as int) =~= a.distribution@);
    if total != PARTS_PER_WHOLE as u128 {
        return None;
    }
    Some(VoterAssignment { who: a.who, stake, distribution })
}

/// Turns a solver's output into an assignment, or rejects it. It is accepted exactly
/// when it elects the desired number of winners, each a target of the snapshot and
/// none twice, the splits name voters of the snapshot in snapshot order, and every
/// split leads only to winners and sums to one whole; anything else is
/// `Infeasible`, so no partial winner set is ever passed on.
pub fn adopt(out: &SolverOutput, snap: &Snapshot) -> (r: Result<Assignment, PipelineError>)
    ensures
        r matches Ok(a) ==> adopted(out@, snap@) == Ok::<AssignmentView, PipelineError>(a@),
        r matches Err(e) ==> adopted(out@, snap@) == Err::<AssignmentView, PipelineError>(e),
        r matches Ok(a) ==> {
            &&& a@.winners.len() == snap.desired_winners
            &&& a@.wf()
            &&& forall|k: int| 0 <= k < a@.winners.len() ==> snap@.targets.contains(#[trigger] a@.winners[k])
            &&& follows_snapshot(a@, snap@.voters)
        },
        r matches Err(e) ==> e == PipelineError::Infeasible,
{
    if out.winners.len() > u32::MAX as usize || out.winners.len() != snap.desired_winners as usize {
        return Err(PipelineError::Infeasible);
    }
    if !all_distinct(&out.winners) || !all_within(&out.winners, &snap.targets) {
        return Err(PipelineError::Infeasible);
    }
    let mut winners: Vec<u64> = Vec::new();
    let mut w: usize = 0;
    while w < out.winners.len()
        invariant
            w <= out.winners.len(),
            winners@ == out.winners@.take(w as int),
        decreases out.winners.len() - w,
    {
        winners.push(out.winners[w]);
        assert(winners@ =~= out.winners@.take(w + 1));
        w += 1;
    }
    assert(out.winners@.take(out.winners@.len() as int) =~= out.winners@);
    let mut voters: Vec<VoterAssignment> = Vec::new();
    let mut last: usize = 0;
    let mut i: usize = 0;
    while i < out.assignments.len()
        invariant
            i <= out.assignments.len(),
            voters@.len() == i,
            i > 0 ==> first_index(snap@.voters, out@.assignments[i - 1].who, 0) == Some(last as nat),
            forall|k: int| 0 < k < i ==> stands_before(snap@.voters, out@.assignments[k - 1].who, (#[trigger] out@.assignments[k]).who),
            forall|k: int| 0 <= k < i ==> ratio_ok(#[trigger] out@.assignments[k], out.winners@, snap@.voters),
            forall|k: int| 0 <= k < i ==> (#[trigger] voters@[k])@ == staked(out@.assignments[k], snap@.voters),
        decreases out.assignments.len() - i,
    {
        assert(out@.assignments[i as int] == out.assignments@[i as int]@);
        match find_voter(&snap.voters, out.assignments[i].who) {
            Some(at) => {
                if i > 0 && at <= last {
                    assert(!stands_before(snap@.voters, out@.assignments[i - 1].who, out@.assignments[i as int].who));
                    return Err(PipelineError::Infeasible);
                }
                last = at;
            },
            None => {
                return Err(PipelineError::Infeasible);
            },
        }
        match stake_one(&out.assignments[i], &out.winners, &snap.voters) {
            Some(v) => {
                voters.push(v);
            },
            None => {
                return Err(PipelineError::Infeasible);
            },
        }
        i += 1;
    }
    let a = Assignment { winners, voters };
    proof {
        reveal(follows_snapshot);
    }
    assert(a@.voters =~= out@.assignments.map_values(|a: RatioAssignmentView| staked(a, snap@.voters)));
    Ok(a)
}

/// Of two allocated voters the earlier one stands earlier in the snapshot, so no
/// voter is allocated twice.
pub proof fn lemma_allocated_once(a: AssignmentView, voters: Seq<VoterView>, i: int, j: int)
    requires
        follows_snapshot(a, voters),
        0 <= i < j < a.voters.len(),
    ensures
        stands_before(voters, a.voters[i].who, a.voters[j].who),
        a.voters[i].who != a.voters[j].who,
    decreases j - i,
{
    reveal(follows_snapshot);
    if j - 1 > i {
        lemma_allocated_once(a, voters, i, j - 1);
    }
    assert(stands_before(voters, a.voters[j - 1].who, a.voters[j].who));
}

/// What the chosen algorithm returns on a snapshot, balanced with tolerance 0.
pub open spec fn solver_outcome(solver: Solver, snap: SnapshotView) -> Option<SolverOutputView> {
    match solver {
        Solver::SeqPhragmen { iterations } => seq_phragmen_outcome(snap.desired_winners as usize, snap.targets, snap.voters, iterations, 0),
        Solver::PhragMMS { iterations } => phragmms_outcome(snap.desired_winners as usize, snap.targets, snap.voters, iterations, 0),
    }
}

/// The assignment that solving a snapshot gives, or `Infeasible`.
pub open spec fn solved(solver: Solver, snap: SnapshotView) -> Result<AssignmentView, PipelineError> {
    match solver_outcome(solver, snap) {
        Some(out) => adopted(out, snap),
        None => Err(PipelineError::Infeasible),
    }
}

/// Runs exactly one algorithm on the snapshot and adopts what it returns. The result
/// either elects exactly the desired number of winners, with every voter's split
/// whole and among the winners, or is `Infeasible`.
pub fn solve(solver: &Solver, snap: &Snapshot) -> (r: Result<Assignment, PipelineError>)
    ensures
        r matches Ok(a) ==> solved(*solver, snap@) == Ok::<AssignmentView, PipelineError>(a@),
        r matches Err(e) ==> solved(*solver, snap@) == Err::<AssignmentView, PipelineError>(e),
        r matches Ok(a) ==> {
            &&& a@.winners.len() == snap.desired_winners
            &&& a@.wf()
            &&& forall|k: int| 0 <= k < a@.winners.len() ==> snap@.targets.contains(#[trigger] a@.winners[k])
            &&& follows_snapshot(a@, snap@.voters)
        },
        r matches Err(e) ==> e == PipelineError::Infeasible,
{
    let to_elect: usize = snap.desired_winners as usize;
    let found = match solver {
        Solver::SeqPhragmen { iterations } => seq_phragmen(to_elect, &snap.targets, &snap.voters, *iterations, 0),
        Solver::PhragMMS { iterations } => phragmms(to_elect, &snap.targets, &snap.voters, *iterations, 0),
    };
    match found {
        Ok(out) => adopt(&out, snap),
        Err(_) => Err(PipelineError::Infeasible),
    }
}

} // verus!
