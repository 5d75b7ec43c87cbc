use two_phase_election::compact::RawSolution;
use two_phase_election::miner::LinearWeights;
use two_phase_election::pallet::Module;
use two_phase_election::types::{
    Config, ElectionCompute, ElectionDataProvider, ElectionScore, InvalidTransaction,
    PalletError, Phase, RawEvent, ReadySolution, TransactionSource, WitnessData,
};
use two_phase_election::unsigned::{Call, SubmitUnsignedError};

fn default_config() -> Config {
    Config {
        signed_phase: 10,
        unsigned_phase: 5,
        max_signed_submissions: 5,
        signed_reward_base: 7,
        signed_reward_factor_parts: 0,
        signed_reward_max: None,
        signed_deposit_base: 5,
        signed_deposit_byte: 0,
        signed_deposit_weight: 0,
        feasibility_check_weight: 0,
        solution_improvement_threshold_parts: 0,
        miner_max_iterations: 5,
        miner_max_weight: u64::MAX,
        unsigned_priority: 100,
    }
}

fn default_provider() -> ElectionDataProvider {
    ElectionDataProvider {
        voters: vec![
            (1, 10, vec![10, 20]),
            (2, 10, vec![30, 40]),
            (3, 40, vec![40]),
            (4, 5, vec![10, 20, 30, 40]),
            (10, 10, vec![10]),
            (20, 20, vec![20]),
            (30, 30, vec![30]),
            (40, 40, vec![40]),
        ],
        targets: vec![10, 20, 30, 40],
        desired_targets: 2,
        next_election: 30,
    }
}

fn weights() -> LinearWeights {
    LinearWeights { base: 0, per_active_voter: 0 }
}

fn new_module(config: Config) -> Module {
    Module::new(
        config,
        vec![(7, 1_000_000), (8, 1_000_000), (99, 1_000_000), (100, 1_000_000)],
    )
}

fn roll_to(m: &mut Module, provider: &ElectionDataProvider, n: u64) {
    let mut i: u64 = 1;
    while i <= n {
        m.on_initialize(i, provider.clone());
        i += 1;
    }
}

fn score(x: u128) -> ElectionScore {
    ElectionScore { minimal_stake: x, sum_stake: 0, sum_stake_squared: 0 }
}

fn raw_with_score(x: u128) -> RawSolution {
    RawSolution { score: score(x), ..Default::default() }
}

fn witness() -> WitnessData {
    WitnessData { voters: 8, targets: 4 }
}

#[test]
fn validate_unsigned_retracts_wrong_phase() {
    let mut m = new_module(default_config());
    let provider = default_provider();
    let solution = raw_with_score(5);
    let call = Call::submit_unsigned(solution.clone(), witness());

    // initial
    roll_to(&mut m, &provider, 5);
    assert_eq!(m.current_phase(), Phase::Off);
    assert!(matches!(
        m.validate_unsigned(TransactionSource::Local, &call),
        Err(InvalidTransaction::Custom(99))
    ));
    assert!(matches!(m.pre_dispatch(&call), Err(InvalidTransaction::Custom(99))));

    // signed
    roll_to(&mut m, &provider, 15);
    assert_eq!(m.current_phase(), Phase::Signed);
    assert!(matches!(
        m.validate_unsigned(TransactionSource::Local, &call),
        Err(InvalidTransaction::Custom(99))
    ));
    assert!(matches!(m.pre_dispatch(&call), Err(InvalidTransaction::Custom(99))));

    // unsigned
    roll_to(&mut m, &provider, 25);
    assert!(m.current_phase().is_unsigned());
    assert!(m.validate_unsigned(TransactionSource::Local, &call).is_ok());
    assert!(m.pre_dispatch(&call).is_ok());
}

#[test]
fn validate_unsigned_retracts_low_score() {
    let mut m = new_module(default_config());
    let provider = default_provider();
    roll_to(&mut m, &provider, 25);
    assert!(m.current_phase().is_unsigned());

    let solution = raw_with_score(5);
    let call = Call::submit_unsigned(solution.clone(), witness());

    // initial
    assert!(m.validate_unsigned(TransactionSource::Local, &call).is_ok());
    assert!(m.pre_dispatch(&call).is_ok());

    // set a better score
    m.queued_solution = Some(ReadySolution { score: score(10), ..Default::default() });

    // won't work anymore.
    assert!(matches!(
        m.validate_unsigned(TransactionSource::Local, &call),
        Err(InvalidTransaction::Custom(99))
    ));
    assert!(matches!(m.pre_dispatch(&call), Err(InvalidTransaction::Custom(99))));
}

#[test]
fn priority_is_set() {
    let mut config = default_config();
    config.unsigned_priority = 20;
    let mut m = new_module(config);
    let provider = default_provider();
    roll_to(&mut m, &provider, 25);
    assert!(m.current_phase().is_unsigned());

    let solution = raw_with_score(5);
    let call = Call::submit_unsigned(solution.clone(), witness());
    assert_eq!(
        m.validate_unsigned(TransactionSource::Local, &call).unwrap().priority,
        25
    );
}

#[test]
fn miner_works() {
    let mut m = new_module(default_config());
    let provider = default_provider();
    roll_to(&mut m, &provider, 25);
    assert!(m.current_phase().is_unsigned());

    // ensure we have snapshots in place.
    assert!(m.snapshot().is_some());
    assert_eq!(m.snapshot().as_ref().unwrap().desired_targets, 2);

    // mine a sequential-Phragmen solution with 2 balancing iterations.
    let (solution, witness) = m.mine_solution(&weights(), 2).unwrap();

    // ensure this solution is valid.
    assert!(m.queued_solution().is_none());
    assert!(m.submit_unsigned(solution, witness).is_ok());
    assert!(m.queued_solution().is_some());
}

#[test]
fn miner_trims_weight() {
    // set a proper max weight and weight model, test weight being trimmed.
}

#[test]
fn ocw_will_only_submit_if_feasible() {
    // the ocw should only submit a solution if it is sure that it is valid.
}

#[test]
fn wrong_witness_fails() {}

#[test]
fn invalid_round_fails() {}

#[test]
fn can_only_submit_threshold_better() {
    let mut config = default_config();
    config.solution_improvement_threshold_parts = 500_000_000;
    let mut m = new_module(config);
    let mut provider = default_provider();
    provider.desired_targets = 1;
    provider.voters.push((7, 2, vec![10]));
    provider.voters.push((8, 5, vec![10]));
    roll_to(&mut m, &provider, 25);
    assert!(m.current_phase().is_unsigned());
    assert_eq!(m.snapshot().as_ref().unwrap().desired_targets, 1);

    // an initial solution
    let result = two_phase_election::types::ElectionResult {
        // note: the second element of the backing stake is not important here.
        winners: vec![(10, 10)],
        assignments: vec![two_phase_election::types::RatioAssignment {
            who: 10,
            distribution: vec![(10, two_phase_election::types::PARTS_ONE)],
        }],
    };
    let (solution, wit) = m.prepare_election_result(&weights(), result).unwrap();
    assert!(m.submit_unsigned(solution, wit).is_ok());
    assert_eq!(m.queued_solution().as_ref().unwrap().score.minimal_stake, 10);

    // trial 1: a solution whose score is 12: only 20% better in the first element.
    let result = two_phase_election::types::ElectionResult {
        winners: vec![(10, 12)],
        assignments: vec![
            two_phase_election::types::RatioAssignment {
                who: 10,
                distribution: vec![(10, two_phase_election::types::PARTS_ONE)],
            },
            two_phase_election::types::RatioAssignment {
                who: 7,
                // note: this percent does not even matter; in compact it is 100%.
                distribution: vec![(10, two_phase_election::types::PARTS_ONE)],
            },
        ],
    };
    let (solution, wit) = m.prepare_election_result(&weights(), result).unwrap();
    // 12 is not 50% more than 10
    assert_eq!(solution.score.minimal_stake, 12);
    assert!(matches!(
        m.submit_unsigned(solution, wit),
        Err(SubmitUnsignedError::Dispatch(PalletError::WeakSubmission))
    ));

    // trial 2: a solution whose score is 17: 70% better in the first element.
    let result = two_phase_election::types::ElectionResult {
        winners: vec![(10, 12)],
        assignments: vec![
            two_phase_election::types::RatioAssignment {
                who: 10,
                distribution: vec![(10, two_phase_election::types::PARTS_ONE)],
            },
            two_phase_election::types::RatioAssignment {
                who: 7,
                distribution: vec![(10, two_phase_election::types::PARTS_ONE)],
            },
            two_phase_election::types::RatioAssignment {
                who: 8,
                distribution: vec![(10, two_phase_election::types::PARTS_ONE)],
            },
        ],
    };
    let (solution, wit) = m.prepare_election_result(&weights(), result).unwrap();
    assert_eq!(solution.score.minimal_stake, 17);

    // and it is fine
    assert!(m.submit_unsigned(solution, wit).is_ok());
}

#[test]
fn ocw_check_prevent_duplicate() {
    let mut m = new_module(default_config());
    let provider = default_provider();
    roll_to(&mut m, &provider, 25);
    assert!(m.current_phase().is_unsigned());

    // first execution: okay.
    assert!(m.set_check_offchain_execution_status(25).is_ok());

    // next block: rejected.
    assert!(m.set_check_offchain_execution_status(26).is_err());

    // allowed after the repeat window.
    assert!(m.set_check_offchain_execution_status(26 + 5).is_ok());

    // a fork-like situation: re-execute the last three.
    assert!(m.set_check_offchain_execution_status(26 + 5 - 3).is_err());
    assert!(m.set_check_offchain_execution_status(26 + 5 - 2).is_err());
    assert!(m.set_check_offchain_execution_status(26 + 5 - 1).is_err());
}

#[test]
fn ocw_only_runs_when_signed_open_now() {
    let mut m = new_module(default_config());
    let provider = default_provider();
    let seed = vec![0u8; 32];
    roll_to(&mut m, &provider, 25);
    assert_eq!(m.current_phase(), Phase::Unsigned(true, 25));

    // clear the recorded head between attempts so that the re-run guard
    // does not get in the way.
    assert!(m.offchain_worker(&weights(), 24, &seed).is_none());
    m.ocw_head = None;

    assert!(m.offchain_worker(&weights(), 26, &seed).is_none());
    m.ocw_head = None;

    // submits!
    assert!(m.offchain_worker(&weights(), 25, &seed).is_some());
}

#[test]
fn ocw_can_submit_to_pool() {
    let mut m = new_module(default_config());
    let provider = default_provider();
    let seed = vec![0u8; 32];
    roll_to(&mut m, &provider, 25);
    assert_eq!(m.current_phase(), Phase::Unsigned(true, 25));

    let call = m.offchain_worker(&weights(), 25, &seed).unwrap();
    assert!(matches!(call, Call::submit_unsigned(_, _)));
}

#[test]
fn infeasible_unsigned_submission_is_fatal() {
    // An empty compact solution claims a score but presents no winners at
    // all: the feasibility check must reject it, and the host must turn
    // that rejection into an abort of block authoring.
    let mut m = new_module(default_config());
    let provider = default_provider();
    roll_to(&mut m, &provider, 25);
    assert!(m.current_phase().is_unsigned());
    assert!(matches!(
        m.submit_unsigned(raw_with_score(5), witness()),
        Err(SubmitUnsignedError::Infeasible(
            two_phase_election::types::FeasibilityError::WrongWinnerCount
        ))
    ));
}

#[test]
fn signed_submission_is_rewarded_at_finalization() {
    let mut m = new_module(default_config());
    let provider = default_provider();
    roll_to(&mut m, &provider, 15);
    assert_eq!(m.current_phase(), Phase::Signed);

    let (solution, _) = m.mine_solution(&weights(), 0).unwrap();
    assert!(m.submit(99, solution).is_ok());
    assert_eq!(m.signed_submissions().len(), 1);
    // deposit held: base 5, no per-byte or per-weight component.
    assert_eq!(m.currency.reserved, vec![(99, 5)]);

    roll_to(&mut m, &provider, 25);
    assert_eq!(m.current_phase(), Phase::Unsigned(false, 25));
    assert!(m.queued_solution().is_some());
    assert_eq!(m.queued_solution().as_ref().unwrap().compute, ElectionCompute::Signed);
    // deposits all released: none left reserved.
    assert!(m.currency.reserved.is_empty());
    assert!(m.events.contains(&RawEvent::Rewarded(99)));
}

#[test]
fn full_queue_rejects_weaker_without_deposit_movement() {
    let mut config = default_config();
    config.max_signed_submissions = 1;
    let mut m = new_module(config);
    let provider = default_provider();
    roll_to(&mut m, &provider, 15);

    assert!(m.submit(99, raw_with_score(10)).is_ok());
    let reserved_before = m.currency.reserved.clone();
    let free_before = m.currency.free.clone();

    // queue at capacity, strictly weaker score: rejected, nothing moves.
    assert!(matches!(m.submit(7, raw_with_score(5)), Err(PalletError::QueueFull)));
    assert_eq!(m.currency.reserved, reserved_before);
    assert_eq!(m.currency.free, free_before);
    assert_eq!(m.signed_submissions().len(), 1);
    assert_eq!(m.signed_submissions()[0].who, 99);
}

#[test]
fn full_queue_evicts_worst_and_refunds_deposit() {
    let mut config = default_config();
    config.max_signed_submissions = 1;
    let mut m = new_module(config);
    let provider = default_provider();
    roll_to(&mut m, &provider, 15);

    assert!(m.submit(99, raw_with_score(10)).is_ok());
    assert_eq!(m.currency.reserved, vec![(99, 5)]);

    // queue at capacity, strictly better score: the worst entry is
    // evicted and its deposit comes back in full.
    assert!(m.submit(8, raw_with_score(20)).is_ok());
    assert_eq!(m.signed_submissions().len(), 1);
    assert_eq!(m.signed_submissions()[0].who, 8);
    assert_eq!(m.currency.reserved, vec![(8, 5)]);
    assert!(m.currency.free.contains(&(99, 1_000_000)));
}

#[test]
fn submission_without_funds_cannot_pay_deposit() {
    let mut m = new_module(default_config());
    let provider = default_provider();
    roll_to(&mut m, &provider, 15);
    // account 55 holds no balance at all.
    assert!(matches!(m.submit(55, raw_with_score(10)), Err(PalletError::CannotPayDeposit)));
    assert_eq!(m.signed_submissions().len(), 0);
    assert!(m.currency.reserved.is_empty());
}

#[test]
fn round_is_strictly_monotone_across_signed_openings() {
    let mut m = new_module(default_config());
    let mut provider = default_provider();
    assert_eq!(m.round(), 0);
    roll_to(&mut m, &provider, 15);
    assert_eq!(m.round(), 1);
    roll_to(&mut m, &provider, 29);
    assert_eq!(m.round(), 1);
    assert!(m.elect().is_ok());
    assert_eq!(m.current_phase(), Phase::Off);

    // the next cycle opens the signed phase once more: one increment.
    provider.next_election = 60;
    let mut i: u64 = 30;
    while i <= 55 {
        m.on_initialize(i, provider.clone());
        i += 1;
    }
    assert_eq!(m.round(), 2);
}

#[test]
fn snapshot_exists_exactly_during_the_round() {
    let mut m = new_module(default_config());
    let provider = default_provider();
    assert!(m.snapshot().is_none());
    roll_to(&mut m, &provider, 15);
    assert!(m.snapshot().is_some());
    roll_to(&mut m, &provider, 25);
    assert!(m.snapshot().is_some());
    assert!(m.elect().is_ok());
    assert!(m.snapshot().is_none());
    assert_eq!(m.current_phase(), Phase::Off);
}

#[test]
fn elect_consumes_queued_solution() {
    let mut m = new_module(default_config());
    let provider = default_provider();
    roll_to(&mut m, &provider, 25);
    let (solution, wit) = m.mine_solution(&weights(), 2).unwrap();
    assert!(m.submit_unsigned(solution, wit).is_ok());

    let supports = m.elect().unwrap();
    assert!(!supports.is_empty());
    assert_eq!(m.current_phase(), Phase::Off);
    assert!(m.events.contains(&RawEvent::ElectionFinalized(Some(ElectionCompute::Unsigned))));
}

#[test]
fn elect_falls_back_to_onchain_election() {
    let mut m = new_module(default_config());
    let provider = default_provider();
    roll_to(&mut m, &provider, 25);
    assert!(m.queued_solution().is_none());

    let supports = m.elect().unwrap();
    // two winners, each with its backers.
    assert_eq!(supports.len(), 2);
    assert!(m.events.contains(&RawEvent::ElectionFinalized(Some(ElectionCompute::OnChain))));
}

#[test]
fn miner_is_deterministic_for_equal_inputs() {
    let mut m = new_module(default_config());
    let provider = default_provider();
    roll_to(&mut m, &provider, 25);
    let first = m.mine_solution(&weights(), 3).unwrap();
    let second = m.mine_solution(&weights(), 3).unwrap();
    assert_eq!(first, second);
}
