use staking_miner::error::PipelineError;
use staking_miner::model::{
    all_distinct, all_within, contains, Assignment, Edge, RatioAssignment, Snapshot, SolverOutput, Voter, VoterAssignment,
};
use staking_miner::package::PackagedSolution;
use staking_miner::pipeline::{prepare, simulation_cmd, ChainState, MinerLimits, SimulationConfig};
use staking_miner::score::{
    add_clamped, backing_of, compute_score, is_close, share, slack_of, square_clamped, validate,
    validate_within, Score,
};
use staking_miner::snapshot::trim_edges;
use staking_miner::solver::{adopt, find_stake, find_voter, solve, Solver};
use staking_miner::trim::{least_voter, trim_to_size, TrimReason};

const A: u64 = 101;
const B: u64 = 102;
const C: u64 = 103;

fn voter(id: u64, stake: u64, approvals: &[u64]) -> Voter {
    Voter { id, stake, approvals: approvals.to_vec() }
}

fn five_voters() -> Vec<Voter> {
    vec![
        voter(1, 10, &[A, B]),
        voter(2, 20, &[B, C]),
        voter(3, 30, &[A, C]),
        voter(4, 40, &[A, B]),
        voter(5, 50, &[B, C]),
    ]
}

fn five_voter_snapshot() -> Snapshot {
    Snapshot::new(five_voters(), vec![A, B, C], 2, 16).unwrap()
}

fn config(solver: Solver, desired_targets: u32) -> SimulationConfig {
    SimulationConfig { at: None, solver, snapshot_path: String::from("snapshot.json"), desired_targets }
}

fn limits(max_length: usize) -> MinerLimits {
    MinerLimits { max_votes_per_voter: 16, max_edges_per_voter: 16, max_length, score_tolerance: 0 }
}

fn hand_made() -> Assignment {
    Assignment {
        winners: vec![A, B],
        voters: vec![
            VoterAssignment {
                who: 10,
                stake: 100,
                distribution: vec![
                    Edge { target: A, parts: 500_000_000 },
                    Edge { target: B, parts: 500_000_000 },
                ],
            },
            VoterAssignment {
                who: 11,
                stake: 40,
                distribution: vec![Edge { target: A, parts: 1_000_000_000 }],
            },
        ],
    }
}

#[test]
fn snapshot_accepts_a_valid_description() {
    let s = Snapshot::new(five_voters(), vec![A, B, C], 2, 2).unwrap();
    assert_eq!(s.voters.len(), 5);
    assert_eq!(s.voters[0].id, 1);
    assert_eq!(s.voters[4].stake, 50);
    assert_eq!(s.targets, vec![A, B, C]);
    assert_eq!(s.desired_winners, 2);
}

#[test]
fn snapshot_rejects_unknown_target() {
    let r = Snapshot::new(vec![voter(1, 10, &[A, 999])], vec![A, B, C], 2, 16);
    assert!(matches!(r, Err(PipelineError::MalformedSnapshot)));
}

#[test]
fn snapshot_rejects_too_many_winners() {
    let r = Snapshot::new(five_voters(), vec![A, B, C], 4, 16);
    assert!(matches!(r, Err(PipelineError::MalformedSnapshot)));
}

#[test]
fn snapshot_accepts_as_many_winners_as_targets() {
    assert!(Snapshot::new(five_voters(), vec![A, B, C], 3, 16).is_ok());
}

#[test]
fn snapshot_rejects_too_many_approvals() {
    let r = Snapshot::new(five_voters(), vec![A, B, C], 2, 1);
    assert!(matches!(r, Err(PipelineError::MalformedSnapshot)));
}

#[test]
fn contains_finds_only_members() {
    assert!(contains(&vec![A, B], B));
    assert!(!contains(&vec![A, B], C));
    assert!(!contains(&vec![], A));
}

#[test]
fn edges_are_cut_in_declared_order() {
    let voters = vec![voter(1, 10, &[A, B, C]), voter(2, 20, &[C]), voter(3, 30, &[C, B, A])];
    let (kept, cut) = trim_edges(&voters, 2);
    assert_eq!(kept.len(), 3);
    assert_eq!(kept[0].approvals, vec![A, B]);
    assert_eq!(kept[1].approvals, vec![C]);
    assert_eq!(kept[2].approvals, vec![C, B]);
    assert_eq!(kept[2].id, 3);
    assert_eq!(kept[2].stake, 30);
    assert_eq!(cut, vec![1, 3]);
}

#[test]
fn cutting_edges_twice_changes_nothing() {
    let voters = vec![voter(1, 10, &[A, B, C]), voter(2, 20, &[C])];
    let (once, _) = trim_edges(&voters, 1);
    let (twice, cut) = trim_edges(&once, 1);
    assert_eq!(twice.len(), 2);
    assert_eq!(twice[0].approvals, once[0].approvals);
    assert_eq!(twice[1].approvals, once[1].approvals);
    assert!(cut.is_empty());
}

#[test]
fn prepare_checks_then_cuts() {
    let limits = MinerLimits { max_votes_per_voter: 16, max_edges_per_voter: 1, max_length: 1000, score_tolerance: 0 };
    let (snapshot, report) =
        prepare(&config(Solver::SeqPhragmen { iterations: 0 }, 2), five_voters(), vec![A, B, C], &limits)
            .unwrap();
    assert_eq!(snapshot.desired_winners, 2);
    assert_eq!(snapshot.voters.len(), 5);
    assert_eq!(snapshot.voters[0].approvals, vec![A]);
    assert_eq!(snapshot.voters[1].approvals, vec![B]);
    assert_eq!(report.removed, vec![1, 2, 3, 4, 5]);
    assert_eq!(report.count(), 5);
    assert_eq!(report.reason, TrimReason::EdgeCount);
}

#[test]
fn prepare_rejects_a_malformed_description() {
    let limits = MinerLimits { max_votes_per_voter: 1, max_edges_per_voter: 1, max_length: 1000, score_tolerance: 0 };
    let r = prepare(&config(Solver::SeqPhragmen { iterations: 0 }, 2), five_voters(), vec![A, B, C], &limits);
    assert!(matches!(r, Err(PipelineError::MalformedSnapshot)));
}

#[test]
fn share_is_the_floor_of_the_product() {
    assert_eq!(share(100, 500_000_000), 50);
    assert_eq!(share(10, 333_333_333), 3);
    assert_eq!(share(7, 1_000_000_000), 7);
    assert_eq!(share(u64::MAX, 1_000_000_000), u64::MAX as u128);
    assert_eq!(share(5, 0), 0);
}

#[test]
fn clamped_arithmetic_stops_at_the_top() {
    assert_eq!(add_clamped(2, 3), 5);
    assert_eq!(add_clamped(u128::MAX, 1), u128::MAX);
    assert_eq!(add_clamped(u128::MAX - 1, 1), u128::MAX);
    assert_eq!(square_clamped(12), 144);
    assert_eq!(square_clamped(u128::MAX), u128::MAX);
    assert_eq!(square_clamped(1u128 << 64), u128::MAX);
}

#[test]
fn score_of_a_hand_made_assignment() {
    let a = hand_made();
    assert_eq!(backing_of(&a, A), 90);
    assert_eq!(backing_of(&a, B), 50);
    assert_eq!(backing_of(&a, C), 0);
    assert_eq!(
        compute_score(&a),
        Score { minimal_stake: 50, sum_stake: 140, sum_stake_squared: 10_600 }
    );
}

#[test]
fn score_without_winners() {
    let a = Assignment { winners: vec![], voters: vec![] };
    assert_eq!(
        compute_score(&a),
        Score { minimal_stake: u128::MAX, sum_stake: 0, sum_stake_squared: 0 }
    );
}

#[test]
fn scoring_twice_gives_the_same_score() {
    let a = hand_made();
    assert_eq!(compute_score(&a), compute_score(&a));
}

#[test]
fn validator_accepts_without_minimum() {
    let worst = Score { minimal_stake: 0, sum_stake: 0, sum_stake_squared: u128::MAX };
    assert_eq!(validate(&worst, &None), Ok(()));
}

#[test]
fn validator_compares_lexicographically() {
    let min = Score { minimal_stake: 50, sum_stake: 140, sum_stake_squared: 10_600 };
    let same = min;
    assert_eq!(validate(&same, &Some(min)), Ok(()));
    let higher_first = Score { minimal_stake: 51, sum_stake: 0, sum_stake_squared: u128::MAX };
    assert_eq!(validate(&higher_first, &Some(min)), Ok(()));
    let lower_first = Score { minimal_stake: 49, sum_stake: 1000, sum_stake_squared: 0 };
    assert_eq!(validate(&lower_first, &Some(min)), Err(PipelineError::ScoreBelowThreshold));
    let higher_second = Score { minimal_stake: 50, sum_stake: 141, sum_stake_squared: u128::MAX };
    assert_eq!(validate(&higher_second, &Some(min)), Ok(()));
    let lower_second = Score { minimal_stake: 50, sum_stake: 139, sum_stake_squared: 0 };
    assert_eq!(validate(&lower_second, &Some(min)), Err(PipelineError::ScoreBelowThreshold));
    let lower_third = Score { minimal_stake: 50, sum_stake: 140, sum_stake_squared: 10_599 };
    assert_eq!(validate(&lower_third, &Some(min)), Ok(()));
    let higher_third = Score { minimal_stake: 50, sum_stake: 140, sum_stake_squared: 10_601 };
    assert_eq!(validate(&higher_third, &Some(min)), Err(PipelineError::ScoreBelowThreshold));
}

#[test]
fn slack_is_the_tolerated_share_rounded_down() {
    assert_eq!(slack_of(1_000, 0), 0);
    assert_eq!(slack_of(1_000, 10_000_000), 10);
    assert_eq!(slack_of(999, 10_000_000), 9);
    assert_eq!(slack_of(1_000, 1_000_000_000), 1_000);
    assert_eq!(slack_of(1_000, u32::MAX), 1_000);
    assert_eq!(slack_of(u128::MAX, 1_000_000_000), u128::MAX);
    assert_eq!(slack_of(3_000_000_007, 500_000_000), 1_500_000_003);
    assert!(is_close(1_010, 1_000, 10_000_000));
    assert!(is_close(990, 1_000, 10_000_000));
    assert!(!is_close(1_011, 1_000, 10_000_000));
    assert!(!is_close(989, 1_000, 10_000_000));
    assert!(is_close(5, 5, 0));
    assert!(!is_close(6, 5, 0));
}

#[test]
fn validator_with_tolerance() {
    let min = Score { minimal_stake: 1_000, sum_stake: 2_000, sum_stake_squared: 3_000 };
    let one_percent: u32 = 10_000_000;
    let slightly_lower = Score { minimal_stake: 995, sum_stake: 1_990, sum_stake_squared: 3_020 };
    assert_eq!(validate(&slightly_lower, &Some(min)), Err(PipelineError::ScoreBelowThreshold));
    assert_eq!(validate_within(&slightly_lower, &Some(min), 0), Err(PipelineError::ScoreBelowThreshold));
    assert_eq!(validate_within(&slightly_lower, &Some(min), one_percent), Ok(()));
    let too_low = Score { minimal_stake: 980, sum_stake: 5_000, sum_stake_squared: 0 };
    assert_eq!(validate_within(&too_low, &Some(min), one_percent), Err(PipelineError::ScoreBelowThreshold));
    let second_decides = Score { minimal_stake: 1_005, sum_stake: 1_900, sum_stake_squared: 0 };
    assert_eq!(validate_within(&second_decides, &Some(min), one_percent), Err(PipelineError::ScoreBelowThreshold));
    let third_decides = Score { minimal_stake: 1_005, sum_stake: 2_010, sum_stake_squared: 3_031 };
    assert_eq!(validate_within(&third_decides, &Some(min), one_percent), Err(PipelineError::ScoreBelowThreshold));
    let third_passes = Score { minimal_stake: 1_005, sum_stake: 2_010, sum_stake_squared: 10 };
    assert_eq!(validate_within(&third_passes, &Some(min), one_percent), Ok(()));
    assert_eq!(validate_within(&too_low, &None, one_percent), Ok(()));
}

#[test]
fn find_stake_takes_the_first_match() {
    let voters = vec![voter(1, 10, &[A]), voter(2, 20, &[B]), voter(1, 30, &[C])];
    assert_eq!(find_stake(&voters, 1), Some(10));
    assert_eq!(find_stake(&voters, 2), Some(20));
    assert_eq!(find_stake(&voters, 3), None);
}

fn output(winners: Vec<u64>, who: u64, edges: &[(u64, u32)]) -> SolverOutput {
    SolverOutput {
        winners,
        assignments: vec![RatioAssignment {
            who,
            distribution: edges.iter().map(|e| Edge { target: e.0, parts: e.1 }).collect(),
        }],
    }
}

#[test]
fn adopt_sets_the_stake_beside_each_split() {
    let snap = five_voter_snapshot();
    let out = output(vec![A, B], 4, &[(A, 250_000_000), (B, 750_000_000)]);
    let a = adopt(&out, &snap).unwrap();
    assert_eq!(a.winners, vec![A, B]);
    assert_eq!(a.voters.len(), 1);
    assert_eq!(a.voters[0].who, 4);
    assert_eq!(a.voters[0].stake, 40);
    assert_eq!(a.voters[0].distribution, vec![
        Edge { target: A, parts: 250_000_000 },
        Edge { target: B, parts: 750_000_000 },
    ]);
}

#[test]
fn adopt_rejects_a_partial_winner_set() {
    let snap = five_voter_snapshot();
    let out = output(vec![A], 4, &[(A, 1_000_000_000)]);
    assert!(matches!(adopt(&out, &snap), Err(PipelineError::Infeasible)));
}

#[test]
fn adopt_rejects_an_edge_to_a_loser() {
    let snap = five_voter_snapshot();
    let out = output(vec![A, B], 4, &[(C, 1_000_000_000)]);
    assert!(matches!(adopt(&out, &snap), Err(PipelineError::Infeasible)));
}

#[test]
fn adopt_rejects_a_split_that_is_not_whole() {
    let snap = five_voter_snapshot();
    let out = output(vec![A, B], 4, &[(A, 250_000_000), (B, 749_999_999)]);
    assert!(matches!(adopt(&out, &snap), Err(PipelineError::Infeasible)));
}

#[test]
fn adopt_rejects_a_winner_named_twice() {
    let snap = five_voter_snapshot();
    let out = output(vec![A, A], 4, &[(A, 1_000_000_000)]);
    assert!(matches!(adopt(&out, &snap), Err(PipelineError::Infeasible)));
}

#[test]
fn adopt_rejects_a_winner_that_is_no_target() {
    let snap = five_voter_snapshot();
    let out = output(vec![A, 999], 4, &[(A, 1_000_000_000)]);
    assert!(matches!(adopt(&out, &snap), Err(PipelineError::Infeasible)));
}

#[test]
fn distinct_and_within() {
    assert!(all_distinct(&vec![]));
    assert!(all_distinct(&vec![A, B, C]));
    assert!(!all_distinct(&vec![A, B, A]));
    assert!(all_within(&vec![A, A], &vec![A, B]));
    assert!(!all_within(&vec![A, C], &vec![A, B]));
    assert!(all_within(&vec![], &vec![]));
}

#[test]
fn the_configured_winner_count_governs_the_run() {
    let chain = ChainState { round: 1, minimum_untrusted_score: None };
    let one = simulation_cmd(&config(Solver::SeqPhragmen { iterations: 10 }, 1), five_voter_snapshot(), Ok(chain), &limits(10_000)).unwrap();
    assert_eq!(one.trimmed.solution.assignment.winners.len(), 1);
    assert_eq!(one.trimmed.snapshot.desired_winners, 1);
    let r = simulation_cmd(&config(Solver::SeqPhragmen { iterations: 10 }, 4), five_voter_snapshot(), Ok(chain), &limits(10_000));
    assert!(matches!(r, Err(PipelineError::MalformedSnapshot)));
}

#[test]
fn a_malformed_snapshot_is_rejected_before_anything_else() {
    let cfg = config(Solver::SeqPhragmen { iterations: 10 }, 2);
    let unknown = Snapshot { voters: vec![voter(1, 10, &[A, 999])], targets: vec![A, B, C], desired_winners: 2 };
    let r = simulation_cmd(&cfg, unknown, Err(PipelineError::ChainUnavailable), &limits(10_000));
    assert!(matches!(r, Err(PipelineError::MalformedSnapshot)));
    let chain = ChainState { round: 1, minimum_untrusted_score: None };
    let crowded = Snapshot { voters: vec![voter(1, 10, &[A, B, C])], targets: vec![A, B, C], desired_winners: 2 };
    let two = MinerLimits { max_votes_per_voter: 2, max_edges_per_voter: 2, max_length: 10_000, score_tolerance: 0 };
    let r = simulation_cmd(&cfg, crowded, Ok(chain), &two);
    assert!(matches!(r, Err(PipelineError::MalformedSnapshot)));
    let twice = Snapshot { voters: vec![voter(1, 10, &[A]), voter(1, 20, &[B])], targets: vec![A, B, C], desired_winners: 2 };
    let r = simulation_cmd(&cfg, twice, Ok(chain), &limits(10_000));
    assert!(matches!(r, Err(PipelineError::MalformedSnapshot)));
}

#[test]
fn snapshot_rejects_a_target_named_twice() {
    let r = Snapshot::new(five_voters(), vec![A, B, C, A], 2, 16);
    assert!(matches!(r, Err(PipelineError::MalformedSnapshot)));
}

#[test]
fn snapshot_rejects_a_voter_identity_used_twice() {
    let r = Snapshot::new(vec![voter(1, 10, &[A]), voter(2, 20, &[B]), voter(1, 30, &[C])], vec![A, B, C], 2, 16);
    assert!(matches!(r, Err(PipelineError::MalformedSnapshot)));
}

#[test]
fn validity_of_a_snapshot() {
    assert!(five_voter_snapshot().is_valid(2));
    assert!(!five_voter_snapshot().is_valid(1));
    let s = Snapshot { voters: five_voters(), targets: vec![A], desired_winners: 1 };
    assert!(!s.is_valid(16));
}

fn two_rows(first: u64, second: u64) -> SolverOutput {
    SolverOutput {
        winners: vec![A, B],
        assignments: vec![
            RatioAssignment { who: first, distribution: vec![Edge { target: A, parts: 1_000_000_000 }] },
            RatioAssignment { who: second, distribution: vec![Edge { target: B, parts: 1_000_000_000 }] },
        ],
    }
}

#[test]
fn adopt_takes_rows_in_snapshot_order_only() {
    let snap = five_voter_snapshot();
    let a = adopt(&two_rows(2, 4), &snap).unwrap();
    assert_eq!(a.voters.len(), 2);
    assert_eq!(a.voters[0].stake, 20);
    assert_eq!(a.voters[1].stake, 40);
    assert!(matches!(adopt(&two_rows(4, 2), &snap), Err(PipelineError::Infeasible)));
    assert!(matches!(adopt(&two_rows(4, 4), &snap), Err(PipelineError::Infeasible)));
}

#[test]
fn find_voter_gives_the_first_index() {
    let voters = five_voters();
    assert_eq!(find_voter(&voters, 1), Some(0));
    assert_eq!(find_voter(&voters, 5), Some(4));
    assert_eq!(find_voter(&voters, 6), None);
}

#[test]
fn a_budget_under_the_shortest_bundle_is_never_met() {
    let r = trim_to_size(&Solver::SeqPhragmen { iterations: 10 }, five_voter_snapshot(), 53, 3);
    assert!(matches!(r, Err(PipelineError::TrimmingExhausted)));
}

#[test]
fn small_bundles_can_be_encoded() {
    let made = PackagedSolution::new(hand_made(), 7);
    assert!(made.is_encodable());
    assert!(made.encode().is_some());
}

#[test]
fn a_run_tags_its_report_with_the_encoded_size() {
    let chain = ChainState { round: 9, minimum_untrusted_score: None };
    let cfg = config(Solver::SeqPhragmen { iterations: 10 }, 2);
    let full = simulation_cmd(&cfg, five_voter_snapshot(), Ok(chain), &limits(10_000)).unwrap();
    let tight = simulation_cmd(&cfg, five_voter_snapshot(), Ok(chain), &limits(full.length - 1)).unwrap();
    assert_eq!(tight.trimmed.report.reason, TrimReason::EncodedSize);
    assert_eq!(tight.trimmed.report.removed[0], 1);
    assert!(tight.length < full.length);
    let kept: Vec<u64> = tight.trimmed.snapshot.voters.iter().map(|v| v.id).collect();
    let mut rows = tight.trimmed.solution.assignment.voters.iter().map(|v| v.who);
    let mut position = 0;
    for who in &mut rows {
        while position < kept.len() && kept[position] != who {
            position += 1;
        }
        assert!(position < kept.len());
        position += 1;
    }
}

#[test]
fn adopt_rejects_an_unknown_voter() {
    let snap = five_voter_snapshot();
    let out = output(vec![A, B], 77, &[(A, 1_000_000_000)]);
    assert!(matches!(adopt(&out, &snap), Err(PipelineError::Infeasible)));
}

#[test]
fn five_voters_elect_two_targets() {
    let snap = five_voter_snapshot();
    let a = solve(&Solver::SeqPhragmen { iterations: 10 }, &snap).unwrap();
    assert_eq!(a.winners.len(), 2);
    assert_ne!(a.winners[0], a.winners[1]);
    assert!(contains(&snap.targets, a.winners[0]));
    assert!(contains(&snap.targets, a.winners[1]));
    assert!(!a.voters.is_empty());
    for v in a.voters.iter() {
        let total: u64 = v.distribution.iter().map(|e| e.parts as u64).sum();
        assert_eq!(total, 1_000_000_000);
        assert_eq!(Some(v.stake), find_stake(&snap.voters, v.who));
        for e in v.distribution.iter() {
            assert!(contains(&a.winners, e.target));
        }
    }
    let score = compute_score(&a);
    let first = backing_of(&a, a.winners[0]);
    let second = backing_of(&a, a.winners[1]);
    assert_eq!(score.minimal_stake, first.min(second));
    assert_eq!(score.sum_stake, first + second);
    assert_eq!(score.sum_stake_squared, first * first + second * second);
    assert!(score.minimal_stake > 0);
    assert_eq!(validate(&score, &None), Ok(()));
}

#[test]
fn phragmms_elects_two_targets() {
    let snap = five_voter_snapshot();
    let a = solve(&Solver::PhragMMS { iterations: 10 }, &snap).unwrap();
    assert_eq!(a.winners.len(), 2);
    assert_ne!(a.winners[0], a.winners[1]);
    assert!(!a.voters.is_empty());
}

#[test]
fn too_few_targets_is_infeasible() {
    let snap = Snapshot { voters: five_voters(), targets: vec![A], desired_winners: 2 };
    let r = solve(&Solver::SeqPhragmen { iterations: 0 }, &snap);
    assert!(matches!(r, Err(PipelineError::Infeasible)));
    let r = solve(&Solver::PhragMMS { iterations: 0 }, &snap);
    assert!(matches!(r, Err(PipelineError::Infeasible)));
}

#[test]
fn encoded_length_of_small_bundles() {
    let empty = PackagedSolution::new(Assignment { winners: vec![], voters: vec![] }, 7);
    assert_eq!(empty.round, 7);
    assert_eq!(empty.encoded_len().unwrap(), 54);
    assert_eq!(empty.encode().unwrap().len(), 54);
    let one = PackagedSolution::new(Assignment { winners: vec![A], voters: vec![] }, 7);
    assert_eq!(one.encoded_len().unwrap(), 62);
    let made = PackagedSolution::new(hand_made(), 7);
    assert_eq!(made.score, Score { minimal_stake: 50, sum_stake: 140, sum_stake_squared: 10_600 });
    assert_eq!(made.encoded_len().unwrap(), 54 + 16 + (17 + 24) + (17 + 12));
    let bytes = made.encode().unwrap();
    assert_eq!(bytes[0], 2 << 2);
    assert_eq!(&bytes[1..9], &A.to_le_bytes());
    assert_eq!(&bytes[bytes.len() - 4..], &7u32.to_le_bytes());
}

#[test]
fn least_voter_is_the_first_of_the_least() {
    assert_eq!(least_voter(&five_voters()), Some(0));
    assert_eq!(least_voter(&vec![]), None);
    let voters = vec![voter(1, 30, &[A]), voter(2, 10, &[A]), voter(3, 10, &[A]), voter(4, 20, &[A])];
    assert_eq!(least_voter(&voters), Some(1));
    assert_eq!(least_voter(&vec![voter(9, 5, &[A])]), Some(0));
}

#[test]
fn a_wide_budget_removes_nobody() {
    let t = trim_to_size(&Solver::SeqPhragmen { iterations: 10 }, five_voter_snapshot(), usize::MAX, 3).unwrap();
    assert!(t.report.removed.is_empty());
    assert_eq!(t.report.reason, TrimReason::EncodedSize);
    assert_eq!(t.snapshot.voters.len(), 5);
    assert_eq!(t.solution.round, 3);
    assert_eq!(t.solution.assignment.winners.len(), 2);
    assert_eq!(t.solution.score, compute_score(&t.solution.assignment));
}

#[test]
fn a_tight_budget_removes_the_lightest_voters_first() {
    let solver = Solver::SeqPhragmen { iterations: 10 };
    let full = trim_to_size(&solver, five_voter_snapshot(), usize::MAX, 3).unwrap();
    let budget = full.solution.encoded_len().unwrap() - 1;
    let t = trim_to_size(&solver, five_voter_snapshot(), budget, 3).unwrap();
    assert!(t.solution.encoded_len().unwrap() <= budget);
    assert!(!t.report.removed.is_empty());
    assert_eq!(t.report.removed[0], 1);
    let expected: Vec<u64> = (1..=t.report.removed.len() as u64).collect();
    assert_eq!(t.report.removed, expected);
    assert_eq!(t.snapshot.voters.len() + t.report.removed.len(), 5);
    assert_eq!(t.snapshot.voters[0].id, t.report.removed.len() as u64 + 1);
    assert_eq!(t.solution.assignment.winners.len(), 2);
}

#[test]
fn an_impossible_budget_exhausts_the_trimmer() {
    let r = trim_to_size(&Solver::SeqPhragmen { iterations: 10 }, five_voter_snapshot(), 0, 3);
    assert!(matches!(r, Err(PipelineError::TrimmingExhausted)));
}

#[test]
fn trimming_a_trimmed_snapshot_changes_nothing() {
    let solver = Solver::SeqPhragmen { iterations: 10 };
    let full = trim_to_size(&solver, five_voter_snapshot(), usize::MAX, 3).unwrap();
    let budget = full.solution.encoded_len().unwrap() - 1;
    let once = trim_to_size(&solver, five_voter_snapshot(), budget, 3).unwrap();
    let bytes = once.solution.encode().unwrap();
    let kept = once.snapshot.voters.len();
    let twice = trim_to_size(&solver, once.snapshot, budget, 3).unwrap();
    assert!(twice.report.removed.is_empty());
    assert_eq!(twice.snapshot.voters.len(), kept);
    assert_eq!(twice.solution.encode().unwrap(), bytes);
}

#[test]
fn two_runs_give_the_same_bytes() {
    let chain = ChainState { round: 9, minimum_untrusted_score: None };
    let cfg = config(Solver::SeqPhragmen { iterations: 10 }, 2);
    let first = simulation_cmd(&cfg, five_voter_snapshot(), Ok(chain), &limits(10_000)).unwrap();
    let second = simulation_cmd(&cfg, five_voter_snapshot(), Ok(chain), &limits(10_000)).unwrap();
    assert_eq!(first.trimmed.solution.encode().unwrap(), second.trimmed.solution.encode().unwrap());
    assert_eq!(first.length, second.length);
    assert_eq!(first.length, first.trimmed.solution.encode().unwrap().len());
    assert_eq!(first.trimmed.solution.round, 9);
}

#[test]
fn a_run_below_the_minimum_is_rejected() {
    let cfg = config(Solver::SeqPhragmen { iterations: 10 }, 2);
    let high = Score { minimal_stake: 1_000_000, sum_stake: 0, sum_stake_squared: 0 };
    let chain = ChainState { round: 9, minimum_untrusted_score: Some(high) };
    let r = simulation_cmd(&cfg, five_voter_snapshot(), Ok(chain), &limits(10_000));
    assert!(matches!(r, Err(PipelineError::ScoreBelowThreshold)));
    let low = Score { minimal_stake: 1, sum_stake: 0, sum_stake_squared: 0 };
    let chain = ChainState { round: 9, minimum_untrusted_score: Some(low) };
    assert!(simulation_cmd(&cfg, five_voter_snapshot(), Ok(chain), &limits(10_000)).is_ok());
}

#[test]
fn a_run_over_budget_is_exhausted() {
    let cfg = config(Solver::PhragMMS { iterations: 0 }, 2);
    let chain = ChainState { round: 9, minimum_untrusted_score: None };
    let r = simulation_cmd(&cfg, five_voter_snapshot(), Ok(chain), &limits(10));
    assert!(matches!(r, Err(PipelineError::TrimmingExhausted)));
}

#[test]
fn a_first_solve_that_fails_is_infeasible() {
    let snap = Snapshot { voters: five_voters(), targets: vec![A], desired_winners: 2 };
    let r = trim_to_size(&Solver::SeqPhragmen { iterations: 0 }, snap, usize::MAX, 3);
    assert!(matches!(r, Err(PipelineError::Infeasible)));
}

#[test]
fn a_failed_read_of_the_chain_ends_the_run() {
    let cfg = config(Solver::SeqPhragmen { iterations: 10 }, 2);
    let r = simulation_cmd(&cfg, five_voter_snapshot(), Err(PipelineError::ChainUnavailable), &limits(10_000));
    assert!(matches!(r, Err(PipelineError::ChainUnavailable)));
    let r = simulation_cmd(&cfg, five_voter_snapshot(), Err(PipelineError::AmbiguousReference), &limits(10_000));
    assert!(matches!(r, Err(PipelineError::AmbiguousReference)));
}

#[test]
fn every_error_names_its_kind() {
    assert_eq!(PipelineError::MalformedSnapshot.message(), "malformed snapshot");
    assert_eq!(PipelineError::ChainUnavailable.message(), "chain unavailable");
    assert_eq!(PipelineError::AmbiguousReference.message(), "ambiguous reference");
    assert_eq!(PipelineError::Infeasible.message(), "infeasible");
    assert_eq!(PipelineError::TrimmingExhausted.message(), "trimming exhausted");
    assert_eq!(PipelineError::ScoreBelowThreshold.message(), "score below threshold");
}
