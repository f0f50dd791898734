//! The three-component quality measure of an election outcome, and its threshold.
use vstd::prelude::*;
use vstd::arithmetic::div_mod::lemma_hoist_over_denominator;
use crate::error::PipelineError;
use crate::model::{
    parts_sum, Assignment, AssignmentView, Edge, VoterAssignment, VoterAssignmentView,
};

verus! {

/// Minimal backing, total backing and sum of squared backings over the winners.
#[derive(Clone, Copy, Debug, PartialEq, Eq, Structural)]
pub struct Score {
    pub minimal_stake: u128,
    pub sum_stake: u128,
    pub sum_stake_squared: u128,
}

/// `x` cut off at the largest value a score component can hold.
pub open spec fn clamp(x: nat) -> u128 {
    if x >= u128::MAX as nat {
        u128::MAX
    } else {
        x as u128
    }
}

/// The stake that an edge of `parts` per billion carries for a voter of `stake`,
/// rounded down.
pub open spec fn edge_share(stake: u64, parts: u32) -> nat {
    ((stake as nat) * (parts as nat) / 1_000_000_000) as nat
}

/// The stake that one voter gives to `winner` over its first `n` edges.
pub open spec fn voter_backing(v: VoterAssignmentView, winner: u64, n: nat) -> nat
    decreases n,
{
    if n == 0 || n > v.distribution.len() {
        0
    } else {
        let e = v.distribution[n - 1];
        voter_backing(v, winner, (n - 1) as nat) + if e.target == winner {
            edge_share(v.stake, e.parts)
        } else {
            0
        }
    }
}

/// The stake that one voter hands out over its first `n` edges.
pub open spec fn voter_total(v: VoterAssignmentView, n: nat) -> nat
    decreases n,
{
    if n == 0 || n > v.distribution.len() {
        0
    } else {
        voter_total(v, (n - 1) as nat) + edge_share(v.stake, v.distribution[n - 1].parts)
    }
}

/// Over its first `n` edges a voter hands out the share of its stake that their
/// parts make, short of it by less than one unit for each edge.
proof fn lemma_shares_follow_parts(v: VoterAssignmentView, n: nat)
    requires
        n <= v.distribution.len(),
    ensures
        voter_total(v, n) * 1_000_000_000 <= v.stake * parts_sum(v.distribution, n),
        v.stake * parts_sum(v.distribution, n) <= voter_total(v, n) * 1_000_000_000 + n * 999_999_999,
    decreases n,
{
    if n > 0 {
        lemma_shares_follow_parts(v, (n - 1) as nat);
        let stake: int = v.stake as int;
        let p: int = v.distribution[n - 1].parts as int;
        let before: int = parts_sum(v.distribution, (n - 1) as nat) as int;
        let f: int = edge_share(v.stake, v.distribution[n - 1].parts) as int;
        assert(f * 1_000_000_000 <= stake * p <= f * 1_000_000_000 + 999_999_999) by (nonlinear_arith)
            requires
                f == stake * p / 1_000_000_000,
                stake >= 0,
                p >= 0,
        ;
        assert(stake * (before + p) == stake * before + stake * p) by (nonlinear_arith);
        assert((voter_total(v, (n - 1) as nat) + f) * 1_000_000_000 == voter_total(v, (n - 1) as nat) * 1_000_000_000 + f * 1_000_000_000) by (nonlinear_arith);
        assert(n * 999_999_999 == (n - 1) * 999_999_999 + 999_999_999) by (nonlinear_arith);
    }
}

/// A voter whose parts make one whole hands out no more than its stake, and falls
/// short of it by less than one unit for each edge.
pub proof fn lemma_shares_make_the_stake(v: VoterAssignmentView)
    requires
        parts_sum(v.distribution, v.distribution.len()) == 1_000_000_000,
    ensures
        voter_total(v, v.distribution.len()) <= v.stake,
        v.stake < voter_total(v, v.distribution.len()) + v.distribution.len(),
{
    let n = v.distribution.len();
    lemma_shares_follow_parts(v, n);
    let total: int = voter_total(v, n) as int;
    let stake: int = v.stake as int;
    assert(n > 0);
    assert(total <= stake) by (nonlinear_arith)
        requires
            total * 1_000_000_000 <= stake * 1_000_000_000,
    ;
    assert(stake < total + n) by (nonlinear_arith)
        requires
            stake * 1_000_000_000 <= total * 1_000_000_000 + n * 999_999_999,
            n > 0,
    ;
}

/// The stake that the first `n` voters give to `winner`.
pub open spec fn backing(voters: Seq<VoterAssignmentView>, winner: u64, n: nat) -> nat
    decreases n,
{
    if n == 0 || n > voters.len() {
        0
    } else {
        backing(voters, winner, (n - 1) as nat) + voter_backing(
            voters[n - 1],
            winner,
            voters[n - 1].distribution.len(),
        )
    }
}

/// The total stake behind `winner`.
pub open spec fn total_backing(a: AssignmentView, winner: u64) -> nat {
    backing(a.voters, winner, a.voters.len())
}

/// The least backing among the first `n` winners; the largest component where `n` is 0.
pub open spec fn minimal_backing(a: AssignmentView, n: nat) -> nat
    decreases n,
{
    if n == 0 || n > a.winners.len() {
        u128::MAX as nat
    } else {
        let rest = minimal_backing(a, (n - 1) as nat);
        let b = total_backing(a, a.winners[n - 1]);
        if b < rest {
            b
        } else {
            rest
        }
    }
}

/// The sum of the backings of the first `n` winners.
pub open spec fn sum_backing(a: AssignmentView, n: nat) -> nat
    decreases n,
{
    if n == 0 || n > a.winners.len() {
        0
    } else {
        sum_backing(a, (n - 1) as nat) + total_backing(a, a.winners[n - 1])
    }
}

/// The sum of the squared backings of the first `n` winners.
pub open spec fn sum_backing_squared(a: AssignmentView, n: nat) -> nat
    decreases n,
{
    if n == 0 || n > a.winners.len() {
        0
    } else {
        let b = total_backing(a, a.winners[n - 1]);
        sum_backing_squared(a, (n - 1) as nat) + b * b
    }
}

/// The score of an assignment: each component is the exact value, cut off at the
/// largest representable one.
pub open spec fn score_of(a: AssignmentView) -> Score {
    Score {
        minimal_stake: clamp(minimal_backing(a, a.winners.len())),
        sum_stake: clamp(sum_backing(a, a.winners.len())),
        sum_stake_squared: clamp(sum_backing_squared(a, a.winners.len())),
    }
}

/// Adds two components, stopping at the largest representable value.
pub fn add_clamped(a: u128, b: u128) -> (r: u128)
    ensures
        r == clamp(a as nat + b as nat),
{
    if a > u128::MAX - b {
        u128::MAX
    } else {
        a + b
    }
}

/// Squares a component, stopping at the largest representable value.
pub fn square_clamped(a: u128) -> (r: u128)
    ensures
        r == clamp(a as nat * a as nat),
{
    match a.checked_mul(a) {
        Some(p) => p,
        None => u128::MAX,
    }
}

/// The stake that an edge carries, computed without overflow. The product is
/// rounded down, so a voter's shares may fall short of its stake by less than one
/// unit for each edge; an evaluation that rounds each share to the nearest unit and
/// then evens the shares out to the stake can differ from this one by that much.
pub fn share(stake: u64, parts: u32) -> (r: u128)
    ensures
        r == edge_share(stake, parts),
{
    let s: u128 = stake as u128;
    let p: u128 = parts as u128;
    assert(s * p <= 0xffff_ffff_ffff_ffff * 0xffff_ffff) by (nonlinear_arith)
        requires
            s <= 0xffff_ffff_ffff_ffff,
            p <= 0xffff_ffff,
    ;
    s * p / 1_000_000_000
}

/// The stake that one voter gives to `winner`.
fn voter_backing_of(v: &VoterAssignment, winner: u64) -> (r: u128)
    ensures
        r == clamp(voter_backing(v@, winner, v.distribution@.len())),
{
    let mut acc: u128 = 0;
    let mut j: usize = 0;
    while j < v.distribution.len()
        invariant
            j <= v.distribution.len(),
            acc == clamp(voter_backing(v@, winner, j as nat)),
        decreases v.distribution.len() - j,
    {
        let e: Edge = v.distribution[j];
        if e.target == winner {
            acc = add_clamped(acc, share(v.stake, e.parts));
        }
        j += 1;
    }
    acc
}

/// The total stake behind `winner`, cut off at the largest representable value.
pub fn backing_of(a: &Assignment, winner: u64) -> (r: u128)
    ensures
        r == clamp(total_backing(a@, winner)),
{
    let mut acc: u128 = 0;
    let mut i: usize = 0;
    while i < a.voters.len()
        invariant
            i <= a.voters.len(),
            acc == clamp(backing(a@.voters, winner, i as nat)),
        decreases a.voters.len() - i,
    {
        let b = voter_backing_of(&a.voters[i], winner);
        acc = add_clamped(acc, b);
        i += 1;
    }
    acc
}

/// Computes the score of an assignment. It never fails, and equal assignments have
/// equal scores: the result is a function of the assignment's view.
pub fn compute_score(a: &Assignment) -> (s: Score)
    ensures
        s == score_of(a@),
{
    let mut minimal: u128 = u128::MAX;
    let mut sum: u128 = 0;
    let mut squares: u128 = 0;
    let mut i: usize = 0;
    while i < a.winners.len()
        invariant
            i <= a.winners.len(),
            minimal == clamp(minimal_backing(a@, i as nat)),
            sum == clamp(sum_backing(a@, i as nat)),
            squares == clamp(sum_backing_squared(a@, i as nat)),
        decreases a.winners.len() - i,
    {
        let b = backing_of(a, a.winners[i]);
        proof {
            let t = total_backing(a@, a@.winners[i as int]);
            assert(t >= u128::MAX as nat ==> t * t >= u128::MAX as nat) by (nonlinear_arith);
        }
        if b < minimal {
            minimal = b;
        }
        sum = add_clamped(sum, b);
        squares = add_clamped(squares, square_clamped(b));
        i += 1;
    }
    Score { minimal_stake: minimal, sum_stake: sum, sum_stake_squared: squares }
}

/// Whether `score` is not worse than `minimum`: the first component in which they
/// differ decides, higher being better for the first two and lower for the third.
pub open spec fn not_worse(score: Score, minimum: Score) -> bool {
    if score.minimal_stake != minimum.minimal_stake {
        score.minimal_stake > minimum.minimal_stake
    } else if score.sum_stake != minimum.sum_stake {
        score.sum_stake > minimum.sum_stake
    } else {
        score.sum_stake_squared <= minimum.sum_stake_squared
    }
}

/// Whether a score passes an optional minimum. Without a minimum every score passes.
pub open spec fn accepts(score: Score, minimum: Option<Score>) -> bool {
    match minimum {
        None => true,
        Some(m) => not_worse(score, m),
    }
}

/// Accepts or rejects a score against the minimum that the authority supplies.
pub fn validate(score: &Score, minimum: &Option<Score>) -> (r: Result<(), PipelineError>)
    ensures
        r.is_ok() == accepts(*score, *minimum),
        r.is_err() ==> r == Err::<(), PipelineError>(PipelineError::ScoreBelowThreshold),
        minimum.is_none() ==> r.is_ok(),
{
    let ok = match minimum {
        None => true,
        Some(m) => {
            if score.minimal_stake != m.minimal_stake {
                score.minimal_stake > m.minimal_stake
            } else if score.sum_stake != m.sum_stake {
                score.sum_stake > m.sum_stake
            } else {
                score.sum_stake_squared <= m.sum_stake_squared
            }
        },
    };
    if ok {
        Ok(())
    } else {
        Err(PipelineError::ScoreBelowThreshold)
    }
}

/// The tolerance in force: a ratio in parts per billion, never more than one whole.
pub open spec fn effective_tolerance(tolerance: u32) -> nat {
    if tolerance > 1_000_000_000 {
        1_000_000_000
    } else {
        tolerance as nat
    }
}

/// The distance from `m` within which a component counts as equal to `m`: the
/// tolerated share of `m`, rounded down.
pub open spec fn slack(m: u128, tolerance: u32) -> nat {
    (m as nat * effective_tolerance(tolerance)) / 1_000_000_000
}

/// Whether `a` is equal to `m` up to the tolerance.
pub open spec fn close(a: u128, m: u128, tolerance: u32) -> bool {
    if a >= m {
        a - m <= slack(m, tolerance)
    } else {
        m - a <= slack(m, tolerance)
    }
}

/// Whether `score` is not worse than `minimum` where components that are equal up
/// to the tolerance count as equal: the first component that is not decides, and
/// where none is left the score passes.
pub open spec fn not_worse_within(score: Score, minimum: Score, tolerance: u32) -> bool {
    if !close(score.minimal_stake, minimum.minimal_stake, tolerance) {
        score.minimal_stake > minimum.minimal_stake
    } else if !close(score.sum_stake, minimum.sum_stake, tolerance) {
        score.sum_stake > minimum.sum_stake
    } else {
        score.sum_stake_squared <= minimum.sum_stake_squared || close(
            score.sum_stake_squared,
            minimum.sum_stake_squared,
            tolerance,
        )
    }
}

/// Whether a score passes an optional minimum up to the tolerance.
pub open spec fn accepts_within(score: Score, minimum: Option<Score>, tolerance: u32) -> bool {
    match minimum {
        None => true,
        Some(m) => not_worse_within(score, m, tolerance),
    }
}

/// The tolerated share of `m`, rounded down.
pub fn slack_of(m: u128, tolerance: u32) -> (r: u128)
    ensures
        r == slack(m, tolerance),
{
    let t: u128 = if tolerance > 1_000_000_000 { 1_000_000_000 } else { tolerance as u128 };
    let q: u128 = m / 1_000_000_000;
    let rest: u128 = m % 1_000_000_000;
    proof {
        let d: int = 1_000_000_000;
        assert(m == q * d + rest);
        assert(q * t <= q * d) by (nonlinear_arith)
            requires
                0 <= t <= d,
                0 <= q,
        ;
        assert(rest * t <= d * d) by (nonlinear_arith)
            requires
                0 <= t <= d,
                0 <= rest <= d,
        ;
        assert(m * t == rest * t + (q * t) * d) by (nonlinear_arith)
            requires
                m == q * d + rest,
        ;
        assert(rest * t / d <= rest) by (nonlinear_arith)
            requires
                0 <= t <= d,
                0 <= rest,
                d > 0,
        ;
        lemma_hoist_over_denominator(rest * t, q * t, d as nat);
    }
    q * t + rest * t / 1_000_000_000
}

/// Whether `a` is equal to `m` up to the tolerance.
pub fn is_close(a: u128, m: u128, tolerance: u32) -> (r: bool)
    ensures
        r == close(a, m, tolerance),
{
    let s = slack_of(m, tolerance);
    if a >= m {
        a - m <= s
    } else {
        m - a <= s
    }
}

/// Accepts or rejects a score against the authority's minimum, with components
/// that are equal up to `tolerance` parts per billion counted as equal.
pub fn validate_within(score: &Score, minimum: &Option<Score>, tolerance: u32) -> (r: Result<(), PipelineError>)
    ensures
        r.is_ok() == accepts_within(*score, *minimum, tolerance),
        r.is_err() ==> r == Err::<(), PipelineError>(PipelineError::ScoreBelowThreshold),
        minimum.is_none() ==> r.is_ok(),
{
    let ok = match minimum {
        None => true,
        Some(m) => {
            if !is_close(score.minimal_stake, m.minimal_stake, tolerance) {
                score.minimal_stake > m.minimal_stake
            } else if !is_close(score.sum_stake, m.sum_stake, tolerance) {
                score.sum_stake > m.sum_stake
            } else {
                score.sum_stake_squared <= m.sum_stake_squared || is_close(
                    score.sum_stake_squared,
                    m.sum_stake_squared,
                    tolerance,
                )
            }
        },
    };
    if ok {
        Ok(())
    } else {
        Err(PipelineError::ScoreBelowThreshold)
    }
}

/// With no tolerance the comparison is the exact one.
pub proof fn lemma_zero_tolerance_is_exact(score: Score, minimum: Option<Score>)
    ensures
        accepts_within(score, minimum, 0) == accepts(score, minimum),
{
    if let Some(m) = minimum {
        lemma_no_slack(m.minimal_stake);
        lemma_no_slack(m.sum_stake);
        lemma_no_slack(m.sum_stake_squared);
    }
}

/// No tolerance leaves no slack.
proof fn lemma_no_slack(m: u128)
    ensures
        slack(m, 0) == 0,
{
    assert(effective_tolerance(0) == 0);
    assert(m as nat * 0 == 0) by (nonlinear_arith);
    assert(0nat / 1_000_000_000 == 0);
}

/// Without a minimum every score passes, whatever the tolerance.
pub proof fn lemma_no_minimum_accepts(score: Score, tolerance: u32)
    ensures
        accepts(score, None),
        accepts_within(score, None, tolerance),
{
}

} // verus!
