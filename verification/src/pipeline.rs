//! One dry run: from a snapshot description to a solution that fits its budget and
//! passes the authority's minimum.
use vstd::prelude::*;
use crate::error::PipelineError;
use crate::model::{voters_view, Snapshot, SnapshotView, Voter, VoterView};
use crate::package::{encoded_length, scale_encoding};
use crate::score::{accepts_within, validate_within, Score};
use crate::snapshot::{distinct_ids, edge_trimmed, over_limit, trim_edges, truncated, voter_ok};
use crate::solver::{follows_snapshot, Solver};
use crate::trim::{keeps_order, size_trimmed, trim_to_size, TrimReason, TrimReport, Trimmed, TrimmedView};

verus! {

/// What a dry run is asked to do.
#[derive(Debug)]
pub struct SimulationConfig {
    /// The block hash at which the authority is read; the latest head where absent.
    pub at: Option<[u8; 32]>,
    /// The solver algorithm to use.
    pub solver: Solver,
    /// Where the snapshot description is kept.
    pub snapshot_path: String,
    /// How many targets are to be elected.
    pub desired_targets: u32,
}

/// The limits that a run is held to, fixed once at its start.
#[derive(Clone, Copy, Debug)]
pub struct MinerLimits {
    /// The most approvals that a voter of a valid snapshot may have.
    pub max_votes_per_voter: usize,
    /// The most approvals per voter that are handed to the solver.
    pub max_edges_per_voter: usize,
    /// The most bytes that the encoded solution may take.
    pub max_length: usize,
    /// Up to how many parts per billion of the minimum a score component may differ
    /// from it and still count as equal to it.
    pub score_tolerance: u32,
}

/// What the authority says at one point in time.
#[derive(Clone, Copy, Debug)]
pub struct ChainState {
    /// The current election cycle; passed through, never interpreted.
    pub round: u32,
    /// The least score that the authority accepts, if it enforces one.
    pub minimum_untrusted_score: Option<Score>,
}

/// The outcome of a dry run: the solution with its snapshot and trim report, and the
/// number of bytes that the solution takes when encoded.
#[derive(Debug)]
pub struct Simulated {
    pub trimmed: Trimmed,
    pub length: usize,
}

/// The snapshot that a description gives once every voter is cut to `max_edges`.
pub open spec fn prepared(voters: Seq<VoterView>, targets: Seq<u64>, desired: u32, max_edges: usize) -> SnapshotView {
    SnapshotView { voters: edge_trimmed(voters, max_edges), targets, desired_winners: desired }
}

/// Cutting approvals keeps a valid snapshot valid.
pub proof fn lemma_prepared_is_valid(voters: Seq<VoterView>, targets: Seq<u64>, desired: u32, max_votes: usize, max_edges: usize)
    requires
        (SnapshotView { voters, targets, desired_winners: desired }).wf(max_votes),
    ensures
        prepared(voters, targets, desired, max_edges).wf(max_votes),
{
    let p = prepared(voters, targets, desired, max_edges);
    let s = SnapshotView { voters, targets, desired_winners: desired };
    assert(p.voters.len() == voters.len());
    assert(s.wf(max_votes));
    assert forall|a: int, b: int| 0 <= a < b < p.voters.len() implies (#[trigger] p.voters[a]).id != (#[trigger] p.voters[b]).id by {
        assert(p.voters[a].id == s.voters[a].id);
        assert(p.voters[b].id == s.voters[b].id);
    }
    assert(distinct_ids(p.voters));
    assert forall|i: int| 0 <= i < p.voters.len() implies voter_ok(#[trigger] p.voters[i], targets, max_votes) by {
        assert(voter_ok(s.voters[i], s.targets, max_votes));
        assert(p.voters[i] == truncated(voters[i], max_edges));
        assert forall|j: int| 0 <= j < p.voters[i].approvals.len() implies targets.contains(#[trigger] p.voters[i].approvals[j]) by {
            assert(p.voters[i].approvals[j] == voters[i].approvals[j]);
        }
    }
}

/// Checks a snapshot description against the snapshot invariant and cuts every
/// voter's approvals to the first `max_edges_per_voter`. A description that breaks
/// the invariant is `MalformedSnapshot`; nothing else fails. The report names the
/// voters that were cut, in snapshot order.
pub fn prepare(config: &SimulationConfig, voters: Vec<Voter>, targets: Vec<u64>, limits: &MinerLimits) -> (r: Result<(Snapshot, TrimReport), PipelineError>)
    ensures
        r is Ok == Snapshot::described(voters@, targets@, config.desired_targets).wf(limits.max_votes_per_voter),
        r matches Err(e) ==> e == PipelineError::MalformedSnapshot,
        r matches Ok(p) ==> {
            &&& p.0@ == prepared(voters_view(voters@), targets@, config.desired_targets, limits.max_edges_per_voter)
            &&& p.0@.wf(limits.max_votes_per_voter)
            &&& p.1.removed@ == over_limit(voters_view(voters@), limits.max_edges_per_voter, voters@.len())
            &&& p.1.reason == TrimReason::EdgeCount
        },
{
    let checked = match Snapshot::new(voters, targets, config.desired_targets, limits.max_votes_per_voter) {
        Ok(s) => s,
        Err(e) => {
            return Err(e);
        },
    };
    let (kept, cut) = trim_edges(&checked.voters, limits.max_edges_per_voter);
    proof {
        lemma_prepared_is_valid(checked@.voters, checked@.targets, checked@.desired_winners, limits.max_votes_per_voter, limits.max_edges_per_voter);
    }
    let snapshot = Snapshot { voters: kept, targets: checked.targets, desired_winners: checked.desired_winners };
    Ok((snapshot, TrimReport { removed: cut, reason: TrimReason::EdgeCount }))
}

/// The snapshot with the number of winners that the run is configured to elect.
pub open spec fn configured(snap: SnapshotView, desired: u32) -> SnapshotView {
    SnapshotView { voters: snap.voters, targets: snap.targets, desired_winners: desired }
}

/// What a dry run gives: the trimmed solution where its score passes the minimum,
/// `ScoreBelowThreshold` where it does not, and the trimmer's failure otherwise.
pub open spec fn simulated(solver: Solver, snap: SnapshotView, minimum: Option<Score>, tolerance: u32, max_len: usize, round: u32) -> Result<TrimmedView, PipelineError> {
    match size_trimmed(solver, snap, Seq::empty(), max_len, round) {
        Err(e) => Err(e),
        Ok(t) => if accepts_within(t.solution.score, minimum, tolerance) {
            Ok(t)
        } else {
            Err(PipelineError::ScoreBelowThreshold)
        },
    }
}

/// What a dry run gives. A snapshot that breaks the snapshot invariant is
/// `MalformedSnapshot`, whatever the authority said. Otherwise, where the read of
/// the authority failed, that failure and nothing else; where it succeeded, the run
/// in the round and against the minimum that were read.
pub open spec fn dry_run(solver: Solver, snap: SnapshotView, chain: Result<ChainState, PipelineError>, limits: MinerLimits) -> Result<TrimmedView, PipelineError> {
    if !snap.wf(limits.max_votes_per_voter) {
        Err(PipelineError::MalformedSnapshot)
    } else {
        match chain {
            Err(e) => Err(e),
            Ok(c) => simulated(solver, snap, c.minimum_untrusted_score, limits.score_tolerance, limits.max_length, c.round),
        }
    }
}

/// Runs the snapshot for the configured number of winners. A snapshot that breaks
/// the snapshot invariant ends the run with `MalformedSnapshot` before anything
/// else is looked at. Then a failed read of the authority ends the run with that
/// failure. Otherwise the snapshot is solved with the configured algorithm,
/// trimmed to the byte budget, and its score held against the authority's minimum,
/// up to the configured tolerance. On success the solution carries the authority's
/// round, fits the budget and passes the minimum, and the report names the voters
/// removed for the encoded size; no partial result is ever returned.
pub fn simulation_cmd(config: &SimulationConfig, snapshot: Snapshot, chain: Result<ChainState, PipelineError>, limits: &MinerLimits) -> (r: Result<Simulated, PipelineError>)
    ensures
        r matches Ok(s) ==> dry_run(config.solver, configured(snapshot@, config.desired_targets), chain, *limits) == Ok::<TrimmedView, PipelineError>(s.trimmed@),
        r matches Err(e) ==> dry_run(config.solver, configured(snapshot@, config.desired_targets), chain, *limits) == Err::<TrimmedView, PipelineError>(e),
        !configured(snapshot@, config.desired_targets).wf(limits.max_votes_per_voter) ==> (r matches Err(e) && e == PipelineError::MalformedSnapshot),
        configured(snapshot@, config.desired_targets).wf(limits.max_votes_per_voter) ==> {
            &&& chain matches Err(e) ==> (r matches Err(f) && f == e)
            &&& chain is Ok && r is Err ==> {
                ||| r->Err_0 == PipelineError::Infeasible
                ||| r->Err_0 == PipelineError::TrimmingExhausted
                ||| r->Err_0 == PipelineError::ScoreBelowThreshold
            }
        },
        r matches Ok(s) ==> {
            &&& chain is Ok
            &&& configured(snapshot@, config.desired_targets).wf(limits.max_votes_per_voter)
            &&& s.length == scale_encoding(s.trimmed@.solution).len()
            &&& s.length == encoded_length(s.trimmed@.solution)
            &&& s.length <= limits.max_length
            &&& s.trimmed@.solution.round == chain->Ok_0.round
            &&& accepts_within(s.trimmed@.solution.score, chain->Ok_0.minimum_untrusted_score, limits.score_tolerance)
            &&& s.trimmed@.snapshot.voters.len() + s.trimmed@.removed.len() == snapshot@.voters.len()
            &&& forall|k: int| 0 <= k < s.trimmed@.snapshot.voters.len() ==> snapshot@.voters.contains(#[trigger] s.trimmed@.snapshot.voters[k])
            &&& keeps_order(s.trimmed@.snapshot.voters, snapshot@.voters)
            &&& s.trimmed@.snapshot.targets == snapshot@.targets
            &&& s.trimmed@.solution.assignment.winners.len() == config.desired_targets
            &&& follows_snapshot(s.trimmed@.solution.assignment, s.trimmed@.snapshot.voters)
            &&& s.trimmed.report.reason == TrimReason::EncodedSize
        },
{
    let snapshot = Snapshot { voters: snapshot.voters, targets: snapshot.targets, desired_winners: config.desired_targets };
    if !snapshot.is_valid(limits.max_votes_per_voter) {
        return Err(PipelineError::MalformedSnapshot);
    }
    let state = match chain {
        Ok(c) => c,
        Err(e) => {
            return Err(e);
        },
    };
    let trimmed = match trim_to_size(&config.solver, snapshot, limits.max_length, state.round) {
        Ok(t) => t,
        Err(e) => {
            return Err(e);
        },
    };
    match validate_within(&trimmed.solution.score, &state.minimum_untrusted_score, limits.score_tolerance) {
        Ok(()) => {
            let length = match trimmed.solution.encoded_len() {
                Some(n) => n,
                None => unreached(),
            };
            Ok(Simulated { trimmed, length })
        },
        Err(e) => Err(e),
    }
}

/// Two runs on the same snapshot, algorithm, parameters, chain state and limits end
/// alike: in the same failure, or in solutions whose encodings are the
/// same bytes.
pub proof fn lemma_runs_agree(solver: Solver, snap: SnapshotView, chain: Result<ChainState, PipelineError>, limits: MinerLimits, first: Result<TrimmedView, PipelineError>, second: Result<TrimmedView, PipelineError>)
    requires
        first == dry_run(solver, snap, chain, limits),
        second == dry_run(solver, snap, chain, limits),
    ensures
        first == second,
        first matches Ok(t) ==> second is Ok && scale_encoding(t.solution) == scale_encoding(second->Ok_0.solution),
{
}

} // verus!
