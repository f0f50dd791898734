//! Removal of the least valuable voters until the encoded solution fits its budget.
use vstd::prelude::*;
use crate::error::PipelineError;
use crate::model::{voters_view, Snapshot, SnapshotView, Voter, VoterView};
use crate::package::{
    encodable, encoded_length, packaged, scale_encoding, PackagedSolution, PackagedSolutionView,
};
use crate::solver::{follows_snapshot, solve, solved, Solver};

verus! {

/// Which budget made the trimmer act.
#[derive(Clone, Copy, Debug, PartialEq, Eq, Structural)]
pub enum TrimReason {
    /// A voter approved of more targets than may be kept.
    EdgeCount,
    /// The encoded solution was longer than the byte budget.
    EncodedSize,
}

/// The voters that trimming touched, in the order in which it did, and why.
#[derive(Debug)]
pub struct TrimReport {
    pub removed: Vec<u64>,
    pub reason: TrimReason,
}

impl TrimReport {
    /// How many voters were touched.
    pub fn count(&self) -> (n: usize)
        ensures
            n == self.removed@.len(),
    {
        self.removed.len()
    }
}

/// A solution that fits the budget, the snapshot that it was solved from, and the
/// voters that were removed on the way.
#[derive(Debug)]
pub struct Trimmed {
    pub snapshot: Snapshot,
    pub solution: PackagedSolution,
    pub report: TrimReport,
}

/// What a [`Trimmed`] is in contracts.
pub struct TrimmedView {
    pub snapshot: SnapshotView,
    pub solution: PackagedSolutionView,
    pub removed: Seq<u64>,
    pub reason: TrimReason,
}

impl View for Trimmed {
    type V = TrimmedView;

    open spec fn view(&self) -> TrimmedView {
        TrimmedView {
            snapshot: self.snapshot@,
            solution: self.solution@,
            removed: self.report.removed@,
            reason: self.report.reason,
        }
    }
}

/// The bundle that solving a snapshot in a round gives.
pub open spec fn attempt(solver: Solver, snap: SnapshotView, round: u32) -> Result<PackagedSolutionView, PipelineError> {
    match solved(solver, snap) {
        Ok(a) => Ok(packaged(a, round)),
        Err(e) => Err(e),
    }
}

/// `kept[k]` is `all[at[k]]` for every `k`, and `at` rises strictly.
pub open spec fn embeds(kept: Seq<VoterView>, all: Seq<VoterView>, at: Seq<int>) -> bool {
    &&& at.len() == kept.len()
    &&& forall|k: int| 0 <= k < kept.len() ==> 0 <= #[trigger] at[k] < all.len() && all[at[k]] == kept[k]
    &&& forall|k: int, l: int| 0 <= k < l < kept.len() ==> #[trigger] at[k] < #[trigger] at[l]
}

/// The voters of `kept` are voters of `all`, each taken once and in the order of `all`.
pub open spec fn keeps_order(kept: Seq<VoterView>, all: Seq<VoterView>) -> bool {
    exists|at: Seq<int>| embeds(kept, all, at)
}

/// Whether a bundle fits a byte budget: it can be encoded, and in no more bytes
/// than the budget allows.
pub open spec fn fits(p: PackagedSolutionView, max_len: usize) -> bool {
    encodable(p) && encoded_length(p) <= max_len
}

/// Among the first `n` voters, the index of the one with the least stake; of several
/// such, the one that comes first.
pub open spec fn least_index(voters: Seq<VoterView>, n: nat) -> nat
    decreases n,
{
    if n <= 1 || n > voters.len() {
        0
    } else {
        let rest = least_index(voters, (n - 1) as nat);
        if voters[n - 1].stake < voters[rest as int].stake {
            (n - 1) as nat
        } else {
            rest
        }
    }
}

/// The snapshot without its least valuable voter.
pub open spec fn without_least(snap: SnapshotView) -> SnapshotView {
    SnapshotView {
        voters: snap.voters.remove(least_index(snap.voters, snap.voters.len()) as int),
        targets: snap.targets,
        desired_winners: snap.desired_winners,
    }
}

/// What trimming to a byte budget gives, with `removed` taken out before: solve; if
/// the encoding fits, stop; if no voter is left, give up; otherwise take out the
/// least valuable voter and go on. A solve that fails before any voter was taken
/// out is the solver's own failure; one that fails after shows that the voters
/// taken out could not be spared, and the budget cannot be met.
pub open spec fn size_trimmed(solver: Solver, snap: SnapshotView, removed: Seq<u64>, max_len: usize, round: u32) -> Result<TrimmedView, PipelineError>
    decreases snap.voters.len(),
    via size_trimmed_decreases
{
    match attempt(solver, snap, round) {
        Err(e) => if removed.len() == 0 {
            Err(e)
        } else {
            Err(PipelineError::TrimmingExhausted)
        },
        Ok(p) => if fits(p, max_len) {
            Ok(TrimmedView { snapshot: snap, solution: p, removed, reason: TrimReason::EncodedSize })
        } else if snap.voters.len() == 0 {
            Err(PipelineError::TrimmingExhausted)
        } else {
            size_trimmed(
                solver,
                without_least(snap),
                removed.push(snap.voters[least_index(snap.voters, snap.voters.len()) as int].id),
                max_len,
                round,
            )
        },
    }
}

#[via_fn]
proof fn size_trimmed_decreases(solver: Solver, snap: SnapshotView, removed: Seq<u64>, max_len: usize, round: u32) {
    lemma_least_index_in_range(snap.voters, snap.voters.len());
}

/// The least voter among the first `n` is one of them.
pub proof fn lemma_least_index_in_range(voters: Seq<VoterView>, n: nat)
    requires
        n <= voters.len(),
    ensures
        n > 0 ==> least_index(voters, n) < n,
        n == 0 ==> least_index(voters, n) == 0,
    decreases n,
{
    if n > 1 {
        lemma_least_index_in_range(voters, (n - 1) as nat);
    }
}

/// The index of the voter with the least stake, the first of several; `None` where
/// there is no voter.
pub fn least_voter(voters: &Vec<Voter>) -> (r: Option<usize>)
    ensures
        r is None == (voters@.len() == 0),
        r matches Some(i) ==> i == least_index(voters_view(voters@), voters@.len()) && i < voters@.len(),
{
    if voters.len() == 0 {
        return None;
    }
    let ghost vs = voters_view(voters@);
    let mut best: usize = 0;
    let mut i: usize = 1;
    while i < voters.len()
        invariant
            1 <= i <= voters.len(),
            best < i,
            vs == voters_view(voters@),
            best == least_index(vs, i as nat),
        decreases voters.len() - i,
    {
        assert(vs[i as int] == voters@[i as int]@);
        assert(vs[best as int] == voters@[best as int]@);
        if voters[i].stake < voters[best].stake {
            best = i;
        }
        i += 1;
    }
    Some(best)
}

/// Solves the snapshot and, while the encoded solution is longer than `max_len`,
/// removes the voter with the least stake (the first of several) and solves again.
/// The result is the first solution that fits, with the voters removed before it in
/// the order of their removal; `TrimmingExhausted` where even the snapshot without
/// voters gives a solution that is too long, or where a solve fails once a voter
/// was removed; and the solver's own failure where the first solve fails. Voters
/// are only ever removed, never added or reordered.
pub fn trim_to_size(solver: &Solver, snapshot: Snapshot, max_len: usize, round: u32) -> (r: Result<Trimmed, PipelineError>)
    ensures
        r matches Ok(t) ==> size_trimmed(*solver, snapshot@, Seq::empty(), max_len, round) == Ok::<TrimmedView, PipelineError>(t@),
        r matches Err(e) ==> size_trimmed(*solver, snapshot@, Seq::empty(), max_len, round) == Err::<TrimmedView, PipelineError>(e),
        r matches Ok(t) ==> {
            &&& fits(t@.solution, max_len)
            &&& scale_encoding(t@.solution).len() == encoded_length(t@.solution)
            &&& attempt(*solver, t@.snapshot, round) == Ok::<PackagedSolutionView, PipelineError>(t@.solution)
            &&& t@.snapshot.voters.len() + t@.removed.len() == snapshot@.voters.len()
            &&& t@.snapshot.targets == snapshot@.targets
            &&& t@.snapshot.desired_winners == snapshot@.desired_winners
            &&& forall|k: int| 0 <= k < t@.snapshot.voters.len() ==> snapshot@.voters.contains(#[trigger] t@.snapshot.voters[k])
            &&& keeps_order(t@.snapshot.voters, snapshot@.voters)
            &&& t@.solution.assignment.winners.len() == snapshot@.desired_winners
            &&& t@.solution.assignment.wf()
            &&& follows_snapshot(t@.solution.assignment, t@.snapshot.voters)
            &&& t@.solution.round == round
            &&& t.report.reason == TrimReason::EncodedSize
        },
        r matches Err(e) ==> e == PipelineError::Infeasible || e == PipelineError::TrimmingExhausted,
{
    let ghost goal = size_trimmed(*solver, snapshot@, Seq::empty(), max_len, round);
    let ghost start = snapshot@;
    let mut snap = snapshot;
    let mut removed: Vec<u64> = Vec::new();
    let ghost mut at: Seq<int> = Seq::new(start.voters.len(), |k: int| k);
    loop
        invariant
            embeds(snap@.voters, start.voters, at),
            goal == size_trimmed(*solver, snapshot@, Seq::empty(), max_len, round),
            start == snapshot@,
            size_trimmed(*solver, snap@, removed@, max_len, round) == goal,
            snap@.voters.len() + removed@.len() == start.voters.len(),
            snap@.targets == start.targets,
            snap@.desired_winners == start.desired_winners,
            forall|k: int| 0 <= k < snap@.voters.len() ==> start.voters.contains(#[trigger] snap@.voters[k]),
        decreases snap.voters.len(),
    {
        let assignment = match solve(solver, &snap) {
            Ok(a) => a,
            Err(e) => {
                if removed.len() == 0 {
                    return Err(e);
                }
                return Err(PipelineError::TrimmingExhausted);
            },
        };
        let solution = PackagedSolution::new(assignment, round);
        let within = match solution.encoded_len() {
            Some(n) => n <= max_len,
            None => false,
        };
        if within {
            return Ok(Trimmed { snapshot: snap, solution, report: TrimReport { removed, reason: TrimReason::EncodedSize } });
        }
        let i = match least_voter(&snap.voters) {
            Some(i) => i,
            None => {
                return Err(PipelineError::TrimmingExhausted);
            },
        };
        let ghost before = snap@;
        assert(before.voters[i as int] == snap.voters@[i as int]@);
        let gone = snap.voters.remove(i);
        removed.push(gone.id);
        assert(snap@.voters =~= before.voters.remove(i as int));
        assert forall|k: int| 0 <= k < snap@.voters.len() implies start.voters.contains(#[trigger] snap@.voters[k]) by {
            if k < i {
                assert(snap@.voters[k] == before.voters[k]);
            } else {
                assert(snap@.voters[k] == before.voters[k + 1]);
            }
        }
        assert(snap@ == without_least(before));
        proof {
            let shorter = at.remove(i as int);
            assert forall|k: int| 0 <= k < snap@.voters.len() implies 0 <= #[trigger] shorter[k] < start.voters.len() && start.voters[shorter[k]] == snap@.voters[k] by {
                if k < i {
                    assert(shorter[k] == at[k]);
                    assert(snap@.voters[k] == before.voters[k]);
                } else {
                    assert(shorter[k] == at[k + 1]);
                    assert(snap@.voters[k] == before.voters[k + 1]);
                }
            }
            assert forall|k: int, l: int| 0 <= k < l < snap@.voters.len() implies #[trigger] shorter[k] < #[trigger] shorter[l] by {
                let k0 = if k < i { k } else { k + 1 };
                let l0 = if l < i { l } else { l + 1 };
                assert(shorter[k] == at[k0]);
                assert(shorter[l] == at[l0]);
            }
            at = shorter;
        }
    }
}

/// Trimming what trimming gave changes nothing: the solution and the snapshot stay
/// as they are and no voter is removed. And trimming never gives more voters than
/// it was given.
pub proof fn lemma_size_trim_idempotent(solver: Solver, snap: SnapshotView, removed: Seq<u64>, max_len: usize, round: u32)
    requires
        size_trimmed(solver, snap, removed, max_len, round) is Ok,
    ensures
        ({
            let t = size_trimmed(solver, snap, removed, max_len, round)->Ok_0;
            &&& size_trimmed(solver, t.snapshot, Seq::empty(), max_len, round) == Ok::<TrimmedView, PipelineError>(
                TrimmedView { snapshot: t.snapshot, solution: t.solution, removed: Seq::empty(), reason: TrimReason::EncodedSize },
            )
            &&& fits(t.solution, max_len)
            &&& t.reason == TrimReason::EncodedSize
            &&& t.snapshot.voters.len() <= snap.voters.len()
            &&& t.snapshot.voters.len() + t.removed.len() == snap.voters.len() + removed.len()
        }),
    decreases snap.voters.len(),
{
    let p = attempt(solver, snap, round)->Ok_0;
    lemma_least_index_in_range(snap.voters, snap.voters.len());
    if !fits(p, max_len) {
        lemma_size_trim_idempotent(
            solver,
            without_least(snap),
            removed.push(snap.voters[least_index(snap.voters, snap.voters.len()) as int].id),
            max_len,
            round,
        );
    }
}

/// A budget of fewer than 54 bytes is never met: no bundle is that short.
pub proof fn lemma_small_budget_is_never_met(solver: Solver, snap: SnapshotView, removed: Seq<u64>, max_len: usize, round: u32)
    requires
        max_len < 54,
    ensures
        size_trimmed(solver, snap, removed, max_len, round) is Err,
    decreases snap.voters.len(),
{
    lemma_least_index_in_range(snap.voters, snap.voters.len());
    if let Ok(p) = attempt(solver, snap, round) {
        if snap.voters.len() > 0 {
            lemma_small_budget_is_never_met(
                solver,
                without_least(snap),
                removed.push(snap.voters[least_index(snap.voters, snap.voters.len()) as int].id),
                max_len,
                round,
            );
        }
    }
}

} // verus!
