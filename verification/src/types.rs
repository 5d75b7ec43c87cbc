//! Core data model of the two-phase election provider: phases, scores,
//! solutions, snapshots, configuration, errors and events.

use vstd::prelude::*;

verus! {

/// Account identifier. The host chain's opaque account ids are represented by
/// plain integers here.
pub type AccountId = u64;

/// Block number of the host chain.
pub type BlockNumber = u64;

/// Balance of the host chain's currency.
pub type Balance = u128;

/// The numeric weight of a vote, most often the stake of the voter.
pub type VoteWeight = u64;

/// A type in which operations on vote weights are safe.
pub type ExtendedBalance = u128;

/// Block weight.
pub type Weight = u64;

/// Denominator of the fixed-precision fractions used for vote ratios and
/// thresholds: a fraction is `parts / PARTS_ONE` with `parts <= PARTS_ONE`.
pub const PARTS_ONE: u32 = 1000000000;

/// Current phase of the election round.
#[derive(Clone, Copy, PartialEq, Eq, Structural, Debug)]
pub enum Phase {
    /// Nothing, the election is not happening.
    Off,
    /// Signed phase is open.
    Signed,
    /// Unsigned phase. First field is whether it is open or not, second the
    /// block number at which it started.
    Unsigned(bool, BlockNumber),
}

impl Phase {
    /// Whether the phase is signed or not.
    pub fn is_signed(&self) -> (r: bool)
        ensures
            r == (*self is Signed),
    {
        match self {
            Phase::Signed => true,
            _ => false,
        }
    }

    /// Whether the phase is unsigned or not.
    pub fn is_unsigned(&self) -> (r: bool)
        ensures
            r == (*self is Unsigned),
    {
        match self {
            Phase::Unsigned(_, _) => true,
            _ => false,
        }
    }

    /// Whether the phase is unsigned and open at the given block number.
    pub fn is_unsigned_open_at(&self, at: BlockNumber) -> (r: bool)
        ensures
            r == (*self == Phase::Unsigned(true, at)),
    {
        match self {
            Phase::Unsigned(true, since) => *since == at,
            _ => false,
        }
    }

    /// Whether the phase is unsigned and open.
    pub fn is_unsigned_open(&self) -> (r: bool)
        ensures
            r == (*self matches Phase::Unsigned(true, _)),
    {
        match self {
            Phase::Unsigned(true, _) => true,
            _ => false,
        }
    }

    /// Whether the phase is off.
    pub fn is_off(&self) -> (r: bool)
        ensures
            r == (*self is Off),
    {
        match self {
            Phase::Off => true,
            _ => false,
        }
    }
}

impl Default for Phase {
    fn default() -> (r: Self)
        ensures
            r == Phase::Off,
    {
        Phase::Off
    }
}

/// The kind of computation that produced an election result.
#[derive(Clone, Copy, PartialEq, Eq, Structural, Debug)]
pub enum ElectionCompute {
    /// Election was computed on-chain.
    OnChain,
    /// Election was computed with a signed submission.
    Signed,
    /// Election was computed with an unsigned submission.
    Unsigned,
}

impl Default for ElectionCompute {
    fn default() -> (r: Self)
        ensures
            r == ElectionCompute::OnChain,
    {
        ElectionCompute::OnChain
    }
}

/// The score of an election result. Ordered by significance: `minimal_stake`
/// (maximize), then `sum_stake` (maximize), then `sum_stake_squared`
/// (minimize).
#[derive(Clone, Copy, PartialEq, Eq, Structural, Debug)]
pub struct ElectionScore {
    /// The total backing of the winner with the least backing.
    pub minimal_stake: ExtendedBalance,
    /// The sum of the total backing of all winners.
    pub sum_stake: ExtendedBalance,
    /// The sum of the squares of the total backing of all winners.
    pub sum_stake_squared: ExtendedBalance,
}

impl Default for ElectionScore {
    fn default() -> (r: Self)
        ensures
            r == (ElectionScore { minimal_stake: 0, sum_stake: 0, sum_stake_squared: 0 }),
    {
        ElectionScore { minimal_stake: 0, sum_stake: 0, sum_stake_squared: 0 }
    }
}

/// A voter's stake assignment among a set of targets, as fixed-precision
/// ratios (`parts / PARTS_ONE`).
#[derive(Clone, PartialEq, Debug)]
pub struct RatioAssignment {
    /// Voter's identifier.
    pub who: AccountId,
    /// The distribution of the voter's stake: target and ratio parts.
    pub distribution: Vec<(AccountId, u32)>,
}

/// A voter's stake assignment among a set of targets, as absolute stake
/// values.
#[derive(Clone, PartialEq, Debug)]
pub struct BackedAssignment {
    /// Voter's identifier.
    pub who: AccountId,
    /// The distribution of the voter's stake: target and absolute stake.
    pub distribution: Vec<(AccountId, ExtendedBalance)>,
}

/// Final result of a Phragmen run.
#[derive(Clone, PartialEq, Debug)]
pub struct ElectionResult {
    /// Winners, zipped with their approval stake.
    pub winners: Vec<(AccountId, ExtendedBalance)>,
    /// Individual voter-major assignments.
    pub assignments: Vec<RatioAssignment>,
}

/// How much support one winner receives, decomposed per contributing voter.
#[derive(Clone, PartialEq, Debug)]
pub struct Support {
    /// Total support.
    pub total: ExtendedBalance,
    /// Support from individual voters.
    pub voters: Vec<(AccountId, ExtendedBalance)>,
}

/// A target-major representation of an election outcome.
pub type Supports = Vec<(AccountId, Support)>;

/// The per-voter content of ratio assignments: identifier and the
/// distribution taken as a sequence.
pub open spec fn spec_ratio_views(a: Seq<RatioAssignment>) -> Seq<(AccountId, Seq<(AccountId, u32)>)> {
    a.map_values(|x: RatioAssignment| (x.who, x.distribution@))
}

/// The per-voter content of staked assignments: identifier and the
/// distribution taken as a sequence.
pub open spec fn spec_backed_views(s: Seq<BackedAssignment>) -> Seq<(AccountId, Seq<(AccountId, ExtendedBalance)>)> {
    s.map_values(|x: BackedAssignment| (x.who, x.distribution@))
}

/// The content of a voter snapshot: identifier, stake, and the approval
/// list taken as a sequence.
pub open spec fn spec_voter_views(v: Seq<(AccountId, VoteWeight, Vec<AccountId>)>) -> Seq<(AccountId, VoteWeight, Seq<AccountId>)> {
    v.map_values(|x: (AccountId, VoteWeight, Vec<AccountId>)| (x.0, x.1, x.2@))
}

/// The identifiers of a ratio assignment list, in order.
pub open spec fn spec_ratio_whos(a: Seq<RatioAssignment>) -> Seq<u64> {
    a.map_values(|x: RatioAssignment| x.who)
}

/// The identifiers of a staked assignment list, in order.
pub open spec fn spec_backed_whos(s: Seq<BackedAssignment>) -> Seq<u64> {
    s.map_values(|x: BackedAssignment| x.who)
}

/// Witness data about the size of the election, attached to unsigned
/// submissions so the weight charge can be computed before verification.
#[derive(Clone, Copy, PartialEq, Eq, Structural, Debug)]
pub struct WitnessData {
    /// Number of all voters.
    pub voters: u32,
    /// Number of all targets.
    pub targets: u32,
}

impl Default for WitnessData {
    fn default() -> (r: Self)
        ensures
            r == (WitnessData { voters: 0, targets: 0 }),
    {
        WitnessData { voters: 0, targets: 0 }
    }
}

/// A snapshot of all the data needed for an entire round: created at the
/// beginning of the signed phase and kept until `elect` is called.
#[derive(Clone, PartialEq, Debug)]
pub struct RoundSnapshot {
    /// All of the voters: identifier, stake, and approved targets.
    pub voters: Vec<(AccountId, VoteWeight, Vec<AccountId>)>,
    /// All of the targets.
    pub targets: Vec<AccountId>,
    /// Desired number of winners to be elected for this round.
    pub desired_targets: u32,
}

/// A checked solution, ready to be enacted.
#[derive(Clone, PartialEq, Debug)]
pub struct ReadySolution {
    /// The final supports of the solution: target-major.
    pub supports: Supports,
    /// The score of the solution.
    pub score: ElectionScore,
    /// How this election was computed.
    pub compute: ElectionCompute,
}

impl Default for ReadySolution {
    fn default() -> (r: Self)
        ensures
            r.supports@ == Seq::<(AccountId, Support)>::empty(),
            r.score == (ElectionScore { minimal_stake: 0, sum_stake: 0, sum_stake_squared: 0 }),
            r.compute == ElectionCompute::OnChain,
    {
        ReadySolution {
            supports: Vec::new(),
            score: ElectionScore { minimal_stake: 0, sum_stake: 0, sum_stake_squared: 0 },
            compute: ElectionCompute::OnChain,
        }
    }
}

/// Errors of the sequential-Phragmen and normalization primitives.
#[derive(Clone, Copy, PartialEq, Eq, Structural, Debug)]
pub enum NposError {
    /// The weight of all the edges of a voter has gone above the total.
    SolutionWeightOverflow,
    /// A voter's number of targets is out of bound.
    SolutionTargetOverflow,
    /// One of the index functions returned none.
    SolutionInvalidIndex,
    /// An error occurred in some arithmetic operation.
    ArithmeticError,
    /// The data provided to create a support map was invalid.
    InvalidSupportEdge,
    /// Some other failure of the election primitives.
    Other,
}

/// Errors that can happen in the feasibility check.
#[derive(Clone, Copy, PartialEq, Eq, Structural, Debug)]
pub enum FeasibilityError {
    /// Wrong number of winners presented.
    WrongWinnerCount,
    /// The snapshot is not available: an internal error of the chain.
    SnapshotUnavailable,
    /// Internal error from the election primitives.
    NposElection(NposError),
    /// A vote is invalid.
    InvalidVote,
    /// A voter is invalid.
    InvalidVoter,
    /// A winner is invalid.
    InvalidWinner,
    /// The given score was invalid.
    InvalidScore,
}

/// The crate errors. Note that this is different from [`PalletError`].
#[derive(Clone, Copy, PartialEq, Eq, Structural, Debug)]
pub enum ElectionError {
    /// A feasibility error.
    Feasibility(FeasibilityError),
    /// An error in the on-chain fallback.
    OnChainFallback(NposError),
    /// An internal error in the NPoS election primitives.
    NposElections(NposError),
    /// Snapshot data was unavailable unexpectedly.
    SnapshotUnAvailable,
    /// Submitting a transaction to the pool failed.
    PoolSubmissionFailed,
}

/// User-visible errors of the submission extrinsics.
#[derive(Clone, Copy, PartialEq, Eq, Structural, Debug)]
pub enum PalletError {
    /// Submission was too early.
    EarlySubmission,
    /// The score of the submission does not improve on the queued solution.
    WeakSubmission,
    /// The signed submission queue is full.
    QueueFull,
    /// The origin failed to pay the deposit.
    CannotPayDeposit,
}

impl PalletError {
    /// A short text for this error.
    pub fn as_str(&self) -> (r: &'static str) {
        match self {
            PalletError::EarlySubmission => "EarlySubmission",
            PalletError::WeakSubmission => "WeakSubmission",
            PalletError::QueueFull => "QueueFull",
            PalletError::CannotPayDeposit => "CannotPayDeposit",
        }
    }
}

/// Events deposited by the election provider.
#[derive(Clone, Copy, PartialEq, Eq, Structural, Debug)]
pub enum RawEvent {
    /// A solution was stored with the given compute.
    SolutionStored(ElectionCompute),
    /// The election has been finalized, with `Some` of the given computation,
    /// or else if the election failed, `None`.
    ElectionFinalized(Option<ElectionCompute>),
    /// An account has been rewarded for their signed submission.
    Rewarded(AccountId),
    /// An account has been slashed for submitting an invalid signed
    /// submission.
    Slashed(AccountId),
}

/// The static configuration of the pallet: phase lengths, queue bound,
/// deposit and reward formulas, and miner limits.
#[derive(Clone, Copy, PartialEq, Eq, Structural, Debug)]
pub struct Config {
    /// Duration of the signed phase, in blocks.
    pub signed_phase: BlockNumber,
    /// Duration of the unsigned phase, in blocks.
    pub unsigned_phase: BlockNumber,
    /// Maximum number of signed submissions that can be queued.
    pub max_signed_submissions: u32,
    /// Base reward for a fruitful signed submission.
    pub signed_reward_base: Balance,
    /// Per-score-point reward factor, as `parts / PARTS_ONE`.
    pub signed_reward_factor_parts: u32,
    /// Cap on the reward of a signed submission, if any.
    pub signed_reward_max: Option<Balance>,
    /// Base deposit of a signed submission.
    pub signed_deposit_base: Balance,
    /// Per-byte deposit of a signed submission.
    pub signed_deposit_byte: Balance,
    /// Per-weight-unit deposit of a signed submission.
    pub signed_deposit_weight: Balance,
    /// The declared weight of one feasibility check, from the host's weight
    /// model; enters the deposit formula.
    pub feasibility_check_weight: Weight,
    /// Relative improvement (as `parts / PARTS_ONE`) that a new solution must
    /// bring to replace a queued one.
    pub solution_improvement_threshold_parts: u32,
    /// Upper bound on the number of balancing iterations of the miner.
    pub miner_max_iterations: u32,
    /// Block-weight budget of an unsigned solution.
    pub miner_max_weight: Weight,
    /// Base priority of unsigned transactions.
    pub unsigned_priority: u64,
}

/// The source of an unsigned transaction, as reported by the pool.
#[derive(Clone, Copy, PartialEq, Eq, Structural, Debug)]
pub enum TransactionSource {
    /// The transaction was produced by this node.
    Local,
    /// The transaction was found in a block.
    InBlock,
    /// The transaction came over the network.
    External,
}

/// A successful transaction validation verdict.
#[derive(Clone, Copy, PartialEq, Eq, Structural, Debug)]
pub struct ValidTransaction {
    /// Priority of the transaction in the pool.
    pub priority: u64,
    /// The round tag that the transaction provides, used for deduplication.
    pub provides_round: u32,
    /// How long the transaction may stay in the pool, in blocks.
    pub longevity: u64,
    /// Whether the transaction should be gossiped to other peers.
    pub propagate: bool,
}

/// A rejected transaction validation verdict.
#[derive(Clone, Copy, PartialEq, Eq, Structural, Debug)]
pub enum InvalidTransaction {
    /// The call is not recognized or not allowed from this source.
    Call,
    /// The call failed a pre-dispatch check; carries a custom error code.
    Custom(u8),
}

/// The outcome of validating an unsigned transaction.
pub type TransactionValidity = Result<ValidTransaction, InvalidTransaction>;

/// The in-memory stand-in for the host's election data provider: the data it
/// would serve for the next election, and its prediction of when that
/// election happens.
#[derive(Clone, PartialEq, Debug)]
pub struct ElectionDataProvider {
    /// All voters: identifier, stake, approved targets.
    pub voters: Vec<(AccountId, VoteWeight, Vec<AccountId>)>,
    /// All targets.
    pub targets: Vec<AccountId>,
    /// Desired number of winners.
    pub desired_targets: u32,
    /// The block at which the next call to `elect` is predicted to happen.
    pub next_election: BlockNumber,
}

} // verus!
