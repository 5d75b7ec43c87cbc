use two_phase_election::compact::RawSolution;
use two_phase_election::miner::{LinearWeights, WeightInfo};
use two_phase_election::pallet::Module;
use two_phase_election::score::{is_score_better, threshold_scaled};
use two_phase_election::types::{Config, ElectionScore, WitnessData};

fn score(x: u128) -> ElectionScore {
    ElectionScore { minimal_stake: x, sum_stake: 0, sum_stake_squared: 0 }
}

fn staking() -> LinearWeights {
    LinearWeights { base: 0, per_active_voter: 1000 }
}

fn max_len(voters: u32, max_weight: u64) -> u32 {
    let witness = WitnessData { voters, targets: 0 };
    Module::maximum_compact_len(&staking(), 0, witness, max_weight)
}

#[test]
fn find_max_voter_search_works() {
    assert_eq!(max_len(10, 0), 0);
    assert_eq!(max_len(10, 1), 0);
    assert_eq!(max_len(10, 999), 0);
    assert_eq!(max_len(10, 1000), 1);
    assert_eq!(max_len(10, 1001), 1);
    assert_eq!(max_len(10, 1990), 1);
    assert_eq!(max_len(10, 1999), 1);
    assert_eq!(max_len(10, 2000), 2);
    assert_eq!(max_len(10, 2001), 2);
    assert_eq!(max_len(10, 2010), 2);
    assert_eq!(max_len(10, 2990), 2);
    assert_eq!(max_len(10, 2999), 2);
    assert_eq!(max_len(10, 3000), 3);
    assert_eq!(max_len(10, 3333), 3);
    assert_eq!(max_len(10, 5500), 5);
    assert_eq!(max_len(10, 7777), 7);
    assert_eq!(max_len(10, 9999), 9);
    assert_eq!(max_len(10, 10_000), 10);
    assert_eq!(max_len(10, 10_999), 10);
    assert_eq!(max_len(10, 11_000), 10);
    assert_eq!(max_len(10, 22_000), 10);

    assert_eq!(max_len(1, 0), 0);
    assert_eq!(max_len(1, 999), 0);
    assert_eq!(max_len(1, 1000), 1);
    assert_eq!(max_len(1, 3333), 1);

    assert_eq!(max_len(2, 1000), 1);
    assert_eq!(max_len(2, 1999), 1);
    assert_eq!(max_len(2, 2000), 2);
    assert_eq!(max_len(2, 3333), 2);
}

#[test]
fn empty_witness_yields_zero_voters() {
    assert_eq!(max_len(0, 0), 0);
    assert_eq!(max_len(0, 1_000_000), 0);
}

#[test]
fn linear_weight_model_is_linear() {
    let w = staking();
    assert_eq!(w.submit_unsigned(10, 0, 0, 0), 0);
    assert_eq!(w.submit_unsigned(10, 0, 3, 0), 3000);
    assert_eq!(w.submit_unsigned(10, 0, 10, 0), 10_000);
}

#[test]
fn score_improvement_threshold_is_relative() {
    // a 50% threshold over 10 demands at least 15.
    let half: u32 = 500_000_000;
    assert_eq!(threshold_scaled(10, half), 15);
    assert!(!is_score_better(score(12), score(10), half));
    assert!(is_score_better(score(15), score(10), half));
    assert!(is_score_better(score(17), score(10), half));
    // with no threshold, any score at least as good passes.
    assert!(is_score_better(score(10), score(10), 0));
    assert!(!is_score_better(score(9), score(10), 0));
}

#[test]
fn balancing_iterations_are_drawn_from_the_seed() {
    let seed = vec![7u8, 0, 0, 0];
    assert_eq!(Module::get_balancing_iters(0, &seed), 0);
    assert_eq!(Module::get_balancing_iters(10, &seed), 7 % 11);
    assert_eq!(Module::get_balancing_iters(3, &seed), 7 % 4);
    let empty: Vec<u8> = vec![];
    assert_eq!(Module::get_balancing_iters(5, &empty), 0);
}

#[test]
fn deposit_and_reward_follow_their_formulas() {
    let config = Config {
        signed_phase: 10,
        unsigned_phase: 5,
        max_signed_submissions: 5,
        signed_reward_base: 7,
        signed_reward_factor_parts: 100_000_000,
        signed_reward_max: Some(11),
        signed_deposit_base: 5,
        signed_deposit_byte: 2,
        signed_deposit_weight: 3,
        feasibility_check_weight: 7,
        solution_improvement_threshold_parts: 0,
        miner_max_iterations: 5,
        miner_max_weight: u64::MAX,
        unsigned_priority: 100,
    };
    let m = Module::new(config, vec![]);
    let solution = RawSolution { score: score(50), ..Default::default() };
    let encoded_len = two_phase_election::codec::encode_raw_solution(&solution).len() as u128;
    // base + per-byte rent + per-weight charge.
    assert_eq!(m.deposit_for(&solution), 5 + 2 * encoded_len + 3 * 7);
    // base 7 plus 10% of the primary score element 50, capped at 11.
    assert_eq!(m.reward_for(&solution), 11);
    let modest = RawSolution { score: score(30), ..Default::default() };
    assert_eq!(m.reward_for(&modest), 10);
}

#[test]
fn preparing_a_result_reduces_redundant_edges() {
    // Two voters with identical split votes over two winners form an
    // equal-stake cycle; the reduction collapses it, leaving each voter
    // with a single edge and every total unchanged.
    let config = Config {
        signed_phase: 10,
        unsigned_phase: 5,
        max_signed_submissions: 5,
        signed_reward_base: 0,
        signed_reward_factor_parts: 0,
        signed_reward_max: None,
        signed_deposit_base: 0,
        signed_deposit_byte: 0,
        signed_deposit_weight: 0,
        feasibility_check_weight: 0,
        solution_improvement_threshold_parts: 0,
        miner_max_iterations: 5,
        miner_max_weight: u64::MAX,
        unsigned_priority: 100,
    };
    let mut m = Module::new(config, vec![]);
    let provider = two_phase_election::types::ElectionDataProvider {
        voters: vec![(1, 10, vec![10, 20]), (2, 10, vec![10, 20])],
        targets: vec![10, 20],
        desired_targets: 2,
        next_election: 30,
    };
    let mut i: u64 = 1;
    while i <= 25 {
        m.on_initialize(i, provider.clone());
        i += 1;
    }
    let half: u32 = 500_000_000;
    let result = two_phase_election::types::ElectionResult {
        winners: vec![(10, 10), (20, 10)],
        assignments: vec![
            two_phase_election::types::RatioAssignment {
                who: 1,
                distribution: vec![(10, half), (20, half)],
            },
            two_phase_election::types::RatioAssignment {
                who: 2,
                distribution: vec![(10, half), (20, half)],
            },
        ],
    };
    let (solution, _) = m.prepare_election_result(&staking(), result).unwrap();
    let edges: usize = solution.compact.votes.iter().map(|v| v.1.len()).sum();
    assert_eq!(edges, 2);
    // the totals behind each winner are untouched by the reduction.
    assert_eq!(solution.score.sum_stake, 20);
}
