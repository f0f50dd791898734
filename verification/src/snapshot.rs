//! Validation of a snapshot, and the cut of over-long approval lists.
use vstd::prelude::*;
use crate::error::PipelineError;
use crate::model::{all_distinct, contains, Snapshot, SnapshotView, Voter, VoterView, voters_view};

verus! {

/// Every approval of the voter names one of the targets.
pub open spec fn approvals_known(v: VoterView, targets: Seq<u64>) -> bool {
    forall|j: int| 0 <= j < v.approvals.len() ==> targets.contains(#[trigger] v.approvals[j])
}

/// The voter approves of at most `max_votes` targets, all of them known.
pub open spec fn voter_ok(v: VoterView, targets: Seq<u64>, max_votes: usize) -> bool {
    v.approvals.len() <= max_votes && approvals_known(v, targets)
}

/// No two voters share an identity.
pub open spec fn distinct_ids(voters: Seq<VoterView>) -> bool {
    forall|a: int, b: int| 0 <= a < b < voters.len() ==> (#[trigger] voters[a]).id != (#[trigger] voters[b]).id
}

impl SnapshotView {
    /// The invariant of a snapshot: no more winners are desired than there are
    /// targets, no target and no voter identity occurs twice, and every voter is
    /// within the approval limit and names known targets.
    pub open spec fn wf(self, max_votes: usize) -> bool {
        &&& self.desired_winners <= self.targets.len()
        &&& self.targets.no_duplicates()
        &&& distinct_ids(self.voters)
        &&& forall|i: int| 0 <= i < self.voters.len() ==> voter_ok(#[trigger] self.voters[i], self.targets, max_votes)
    }
}

/// Whether no two voters share an identity.
fn check_ids(voters: &Vec<Voter>) -> (r: bool)
    ensures
        r == distinct_ids(voters_view(voters@)),
{
    let ghost vs = voters_view(voters@);
    let mut i: usize = 0;
    while i < voters.len()
        invariant
            i <= voters.len(),
            vs == voters_view(voters@),
            forall|a: int, b: int| 0 <= a < b < i ==> (#[trigger] vs[a]).id != (#[trigger] vs[b]).id,
        decreases voters.len() - i,
    {
        let mut j: usize = 0;
        while j < i
            invariant
                j <= i < voters.len(),
                vs == voters_view(voters@),
                forall|a: int| 0 <= a < j ==> (#[trigger] vs[a]).id != vs[i as int].id,
            decreases i - j,
        {
            assert(vs[i as int] == voters@[i as int]@);
            assert(vs[j as int] == voters@[j as int]@);
            if voters[j].id == voters[i].id {
                return false;
            }
            j += 1;
        }
        i += 1;
    }
    true
}

/// Whether a snapshot description keeps the snapshot invariant.
fn check_description(voters: &Vec<Voter>, targets: &Vec<u64>, desired_winners: u32, max_votes: usize) -> (r: bool)
    ensures
        r == Snapshot::described(voters@, targets@, desired_winners).wf(max_votes),
{
    let ghost d = Snapshot::described(voters@, targets@, desired_winners);
    if desired_winners as usize > targets.len() {
        return false;
    }
    if !all_distinct(targets) || !check_ids(voters) {
        return false;
    }
    let mut i: usize = 0;
    while i < voters.len()
        invariant
            i <= voters.len(),
            d == Snapshot::described(voters@, targets@, desired_winners),
            forall|k: int| 0 <= k < i ==> voter_ok(#[trigger] d.voters[k], targets@, max_votes),
        decreases voters.len() - i,
    {
        assert(d.voters[i as int] == voters@[i as int]@);
        if !check_voter(&voters[i], targets, max_votes) {
            return false;
        }
        i += 1;
    }
    true
}

/// Whether one voter keeps the approval limit and names only known targets.
fn check_voter(v: &Voter, targets: &Vec<u64>, max_votes: usize) -> (r: bool)
    ensures
        r == voter_ok(v@, targets@, max_votes),
{
    if v.approvals.len() > max_votes {
        return false;
    }
    let mut j: usize = 0;
    while j < v.approvals.len()
        invariant
            j <= v.approvals.len(),
            forall|k: int| 0 <= k < j ==> targets@.contains(#[trigger] v.approvals@[k]),
        decreases v.approvals.len() - j,
    {
        if !contains(targets, v.approvals[j]) {
            return false;
        }
        j += 1;
    }
    true
}

impl Snapshot {
    /// What a snapshot is made of, before it is checked.
    pub open spec fn described(voters: Seq<Voter>, targets: Seq<u64>, desired_winners: u32) -> SnapshotView {
        SnapshotView { voters: voters_view(voters), targets, desired_winners }
    }

    /// Checks a snapshot description and, where it keeps the invariant, returns the
    /// snapshot unchanged, voters in their given order. It is rejected exactly when
    /// more winners are desired than there are targets, a target or a voter identity
    /// occurs twice, a voter approves of more than `max_votes` targets, or an
    /// approval names an unknown target.
    pub fn new(voters: Vec<Voter>, targets: Vec<u64>, desired_winners: u32, max_votes: usize) -> (r: Result<Snapshot, PipelineError>)
        ensures
            r.is_ok() == Self::described(voters@, targets@, desired_winners).wf(max_votes),
            r matches Ok(s) ==> s@ == Self::described(voters@, targets@, desired_winners),
            r matches Err(e) ==> e == PipelineError::MalformedSnapshot,
    {
        if check_description(&voters, &targets, desired_winners, max_votes) {
            Ok(Snapshot { voters, targets, desired_winners })
        } else {
            Err(PipelineError::MalformedSnapshot)
        }
    }

    /// Whether the snapshot keeps the snapshot invariant.
    pub fn is_valid(&self, max_votes: usize) -> (r: bool)
        ensures
            r == self@.wf(max_votes),
    {
        check_description(&self.voters, &self.targets, self.desired_winners, max_votes)
    }
}

/// A voter with its approvals cut to the first `max_edges`, in declared order.
pub open spec fn truncated(v: VoterView, max_edges: usize) -> VoterView {
    VoterView {
        id: v.id,
        stake: v.stake,
        approvals: if v.approvals.len() > max_edges {
            v.approvals.take(max_edges as int)
        } else {
            v.approvals
        },
    }
}

/// Every voter with its approvals cut to the first `max_edges`.
pub open spec fn edge_trimmed(voters: Seq<VoterView>, max_edges: usize) -> Seq<VoterView> {
    voters.map_values(|v: VoterView| truncated(v, max_edges))
}

/// The identities, in order, of those among the first `n` voters that approve of
/// more than `max_edges` targets.
pub open spec fn over_limit(voters: Seq<VoterView>, max_edges: usize, n: nat) -> Seq<u64>
    decreases n,
{
    if n == 0 || n > voters.len() {
        Seq::empty()
    } else {
        let rest = over_limit(voters, max_edges, (n - 1) as nat);
        if voters[n - 1].approvals.len() > max_edges {
            rest.push(voters[n - 1].id)
        } else {
            rest
        }
    }
}

/// One voter with its approvals cut to the first `max_edges`.
fn truncate_voter(v: &Voter, max_edges: usize) -> (r: Voter)
    ensures
        r@ == truncated(v@, max_edges),
{
    let keep: usize = if v.approvals.len() > max_edges { max_edges } else { v.approvals.len() };
    let mut approvals: Vec<u64> = Vec::new();
    let mut j: usize = 0;
    while j < keep
        invariant
            j <= keep <= v.approvals.len(),
            approvals@ == v.approvals@.take(j as int),
        decreases keep - j,
    {
        approvals.push(v.approvals[j]);
        assert(approvals@ =~= v.approvals@.take(j + 1));
        j += 1;
    }
    assert(v.approvals@.take(v.approvals@.len() as int) =~= v.approvals@);
    Voter { id: v.id, stake: v.stake, approvals }
}

/// Cuts the approvals of every voter to the first `max_edges`, in declared order,
/// and reports the identities of the voters that were cut. No voter is added,
/// removed or reordered.
pub fn trim_edges(voters: &Vec<Voter>, max_edges: usize) -> (r: (Vec<Voter>, Vec<u64>))
    ensures
        voters_view(r.0@) == edge_trimmed(voters_view(voters@), max_edges),
        r.0@.len() == voters@.len(),
        r.1@ == over_limit(voters_view(voters@), max_edges, voters@.len()),
{
    let mut out: Vec<Voter> = Vec::new();
    let mut cut: Vec<u64> = Vec::new();
    let mut i: usize = 0;
    while i < voters.len()
        invariant
            i <= voters.len(),
            out@.len() == i,
            forall|k: int| 0 <= k < i ==> (#[trigger] out@[k])@ == truncated(voters@[k]@, max_edges),
            cut@ == over_limit(voters_view(voters@), max_edges, i as nat),
        decreases voters.len() - i,
    {
        let v = &voters[i];
        assert(voters_view(voters@)[i as int] == voters@[i as int]@);
        if v.approvals.len() > max_edges {
            cut.push(v.id);
        }
        out.push(truncate_voter(v, max_edges));
        i += 1;
    }
    assert(voters_view(out@) =~= edge_trimmed(voters_view(voters@), max_edges));
    (out, cut)
}

/// Cutting approvals a second time to the same limit changes nothing.
pub proof fn lemma_trim_edges_idempotent(voters: Seq<VoterView>, max_edges: usize)
    ensures
        edge_trimmed(edge_trimmed(voters, max_edges), max_edges) == edge_trimmed(voters, max_edges),
        over_limit(edge_trimmed(voters, max_edges), max_edges, voters.len()) == Seq::<u64>::empty(),
{
    let once = edge_trimmed(voters, max_edges);
    assert(edge_trimmed(once, max_edges) =~= once);
    lemma_none_over_limit(once, max_edges, voters.len());
}

/// Where no voter exceeds the limit, none is reported.
proof fn lemma_none_over_limit(voters: Seq<VoterView>, max_edges: usize, n: nat)
    requires
        n <= voters.len(),
        forall|i: int| 0 <= i < voters.len() ==> (#[trigger] voters[i]).approvals.len() <= max_edges,
    ensures
        over_limit(voters, max_edges, n) == Seq::<u64>::empty(),
    decreases n,
{
    if n > 0 {
        lemma_none_over_limit(voters, max_edges, (n - 1) as nat);
    }
}

} // verus!
