//! The pallet state and its phase controller: the round counter, the
//! current phase, the signed submission queue, the queued ready solution
//! and the snapshot, driven by block progression.

use vstd::prelude::*;
use crate::types::{
    AccountId, BlockNumber, Config, ElectionCompute, ElectionDataProvider, ElectionError,
    FeasibilityError, Phase, RawEvent, ReadySolution, RoundSnapshot, Supports, PARTS_ONE,
};
use crate::compact::{RawSolution, SignedSubmission};
use crate::currency::Currency;
use crate::feasibility::check_feasibility;
use crate::score::spec_threshold_scaled;
use crate::snapshot::spec_snapshot_wf;
use vstd::multiset::Multiset;

verus! {

/// A later queue entry is never worse than an earlier one by more than the
/// improvement threshold: the queue is ordered worst to best, up to the
/// configured relative threshold.
pub open spec fn spec_queue_sorted(q: Seq<SignedSubmission>, threshold_parts: u32) -> bool {
    forall|i: int, j: int|
        0 <= i < j < q.len() ==> (#[trigger] q[i]).solution.score.minimal_stake
            <= spec_threshold_scaled(
            (#[trigger] q[j]).solution.score.minimal_stake,
            threshold_parts,
        )
}

/// The deposits held for the queued submissions, as a bag of
/// (submitter, amount) reservations.
pub open spec fn spec_queue_reservations(q: Seq<SignedSubmission>) -> Multiset<(u64, u128)> {
    q.map_values(|s: SignedSubmission| (s.who, s.deposit)).to_multiset()
}

/// Well-formedness of a configuration: fractions are genuine fractions and
/// the phase spans fit a block number.
pub open spec fn spec_config_wf(c: Config) -> bool {
    &&& c.solution_improvement_threshold_parts <= PARTS_ONE
    &&& c.signed_reward_factor_parts <= PARTS_ONE
    &&& c.signed_phase + c.unsigned_phase <= u64::MAX
}

/// The two-phase election provider, with every on-chain storage item it
/// owns held as a field, and the host collaborators it needs modeled
/// beside them.
#[derive(Clone, PartialEq, Debug)]
pub struct Module {
    /// The static configuration.
    pub config: Config,
    /// Counter of rounds: incremented exactly once whenever the signed
    /// phase opens.
    pub round: u32,
    /// Current phase.
    pub current_phase: Phase,
    /// Sorted (worst to best) queue of unchecked signed submissions.
    pub signed_submissions: Vec<SignedSubmission>,
    /// Current best solution, signed or unsigned, already checked.
    pub queued_solution: Option<ReadySolution>,
    /// Snapshot data of the round: created when the signed phase opens and
    /// cleared by `elect`.
    pub snapshot: Option<RoundSnapshot>,
    /// The host currency holding the submission deposits.
    pub currency: Currency,
    /// Every event deposited so far, in order.
    pub events: Vec<RawEvent>,
    /// The last block number at which the off-chain worker ran, from the
    /// node's persistent off-chain store.
    pub ocw_head: Option<BlockNumber>,
}

/// Whenever the signed or the unsigned phase is on, the snapshot of the
/// round exists.
pub proof fn lemma_snapshot_available_during_round(m: Module)
    requires
        m.wf(),
        m.current_phase is Signed || m.current_phase is Unsigned,
    ensures
        m.snapshot is Some,
{
}

/// The signed queue is always ordered worst to best up to the improvement
/// threshold, and never longer than its configured bound.
pub proof fn lemma_queue_sorted_and_bounded(m: Module)
    requires
        m.wf(),
    ensures
        spec_queue_sorted(m.signed_submissions@, m.config.solution_improvement_threshold_parts),
        m.signed_submissions@.len() <= m.config.max_signed_submissions,
{
}

/// The deposits held by the currency are exactly the deposits of the
/// queued submissions: every reserved amount belongs to one queued
/// submission and the other way round.
pub proof fn lemma_deposits_match_reservations(m: Module)
    requires
        m.wf(),
    ensures
        spec_queue_reservations(m.signed_submissions@)
            == m.currency.reserved@.to_multiset(),
{
}

/// Two module states that agree on every observable field.
pub open spec fn spec_state_eq(a: Module, b: Module) -> bool {
    &&& a.config == b.config
    &&& a.round == b.round
    &&& a.current_phase == b.current_phase
    &&& a.signed_submissions@ == b.signed_submissions@
    &&& a.queued_solution == b.queued_solution
    &&& a.snapshot == b.snapshot
    &&& a.currency.free@ == b.currency.free@
    &&& a.currency.reserved@ == b.currency.reserved@
    &&& a.currency.slashed == b.currency.slashed
    &&& a.currency.rewarded == b.currency.rewarded
    &&& a.events@ == b.events@
    &&& a.ocw_head == b.ocw_head
}

impl Module {
    /// The state invariant: the configuration is well-formed; a snapshot
    /// exists whenever a phase is on; the queue is bounded and sorted; and
    /// the deposits held by the currency are exactly the deposits of the
    /// queued submissions.
    pub open spec fn wf(&self) -> bool {
        &&& spec_config_wf(self.config)
        &&& (self.current_phase is Signed || self.current_phase is Unsigned)
            ==> self.snapshot is Some
        &&& match self.snapshot {
            Some(s) => spec_snapshot_wf(s),
            None => true,
        }
        &&& self.signed_submissions@.len() <= self.config.max_signed_submissions
        &&& spec_queue_sorted(
            self.signed_submissions@,
            self.config.solution_improvement_threshold_parts,
        )
        &&& spec_queue_reservations(self.signed_submissions@)
            == self.currency.reserved@.to_multiset()
    }

    /// A fresh module in the `Off` phase with no submissions and no
    /// reservations, over the given currency accounts.
    pub fn new(config: Config, free_balances: Vec<(AccountId, u128)>) -> (r: Module)
        requires
            spec_config_wf(config),
        ensures
            r.wf(),
            r.config == config,
            r.round == 0u32,
            r.current_phase == Phase::Off,
            r.signed_submissions@.len() == 0,
            r.queued_solution is None,
            r.snapshot is None,
            r.events@.len() == 0,
            r.ocw_head is None,
            r.currency.free == free_balances,
    {
        let m = Module {
            config,
            round: 0,
            current_phase: Phase::Off,
            signed_submissions: Vec::new(),
            queued_solution: None,
            snapshot: None,
            currency: Currency {
                free: free_balances,
                reserved: Vec::new(),
                slashed: 0,
                rewarded: 0,
            },
            events: Vec::new(),
            ocw_head: None,
        };
        proof {
            assert(m.signed_submissions@.map_values(
                |s: SignedSubmission| (s.who, s.deposit),
            ) =~= Seq::<(u64, u128)>::empty());
            assert(spec_queue_reservations(m.signed_submissions@)
                =~= m.currency.reserved@.to_multiset());
        }
        m
    }

    /// Internal counter of rounds, incremented once per signed phase
    /// opening; used to deduplicate unsigned submissions.
    pub fn round(&self) -> (r: u32)
        ensures
            r == self.round,
    {
        self.round
    }

    /// Current phase.
    pub fn current_phase(&self) -> (r: Phase)
        ensures
            r == self.current_phase,
    {
        self.current_phase
    }

    /// Sorted (worst to best) list of unchecked, signed solutions.
    pub fn signed_submissions(&self) -> (r: &Vec<SignedSubmission>)
        ensures
            r == &self.signed_submissions,
    {
        &self.signed_submissions
    }

    /// Current best solution, signed or unsigned.
    pub fn queued_solution(&self) -> (r: &Option<ReadySolution>)
        ensures
            r == &self.queued_solution,
    {
        &self.queued_solution
    }

    /// Snapshot data of the round.
    pub fn snapshot(&self) -> (r: &Option<RoundSnapshot>)
        ensures
            r == &self.snapshot,
    {
        &self.snapshot
    }

    /// Whether an election is currently ongoing.
    pub fn ongoing(&self) -> (r: bool)
        ensures
            r == (self.current_phase is Signed || self.current_phase is Unsigned),
    {
        match self.current_phase {
            Phase::Signed => true,
            Phase::Unsigned(_, _) => true,
            _ => false,
        }
    }

    /// Check the feasibility of a claimed solution against the current
    /// snapshot; fails with `SnapshotUnavailable` outside a round, and
    /// otherwise carries the checker's full acceptance and error
    /// conditions. Validation is measured against the snapshot alone: no
    /// outside per-assignment veto is consulted.
    pub fn feasibility_check(&self, solution: RawSolution, compute: ElectionCompute) -> (r: Result<
        ReadySolution,
        FeasibilityError,
    >)
        ensures
            self.snapshot is None <==> r == Err::<ReadySolution, _>(
                FeasibilityError::SnapshotUnavailable,
            ),
            r is Ok <==> (self.snapshot matches Some(snap) && crate::feasibility::spec_feasible(
                snap,
                solution,
            )),
            match (r, self.snapshot) {
                (Ok(ready), Some(snap)) => ready.compute == compute && ready.score
                    == solution.score && crate::score::spec_evaluate(ready.supports@)
                    == solution.score && (crate::feasibility::spec_canonical_staked(
                    snap,
                    solution.compact.votes@,
                ) matches Ok(s) && crate::feasibility::spec_supports_match(
                    crate::feasibility::spec_winner_accounts(
                        solution.compact.votes@,
                        snap.targets@,
                    ),
                    s@,
                    ready.supports@,
                )),
                (Err(e), Some(snap)) => match e {
                    FeasibilityError::WrongWinnerCount => !crate::feasibility::spec_winner_count_ok(
                        solution.compact,
                        snap.desired_targets,
                    ),
                    FeasibilityError::InvalidVoter => crate::feasibility::spec_winner_count_ok(
                        solution.compact,
                        snap.desired_targets,
                    ) && !crate::compact::spec_voter_indices_valid(
                        solution.compact.votes@,
                        snap.voters@.len() as int,
                    ),
                    FeasibilityError::InvalidWinner => crate::feasibility::spec_winner_count_ok(
                        solution.compact,
                        snap.desired_targets,
                    ) && crate::compact::spec_voter_indices_valid(
                        solution.compact.votes@,
                        snap.voters@.len() as int,
                    ) && !crate::compact::spec_target_indices_valid(
                        solution.compact.votes@,
                        snap.targets@.len() as int,
                    ),
                    FeasibilityError::InvalidVote => crate::feasibility::spec_winner_count_ok(
                        solution.compact,
                        snap.desired_targets,
                    ) && crate::compact::spec_voter_indices_valid(
                        solution.compact.votes@,
                        snap.voters@.len() as int,
                    ) && crate::compact::spec_target_indices_valid(
                        solution.compact.votes@,
                        snap.targets@.len() as int,
                    ) && !crate::feasibility::spec_votes_in_approvals(
                        solution.compact.votes@,
                        snap.voters@,
                        snap.targets@,
                    ),
                    FeasibilityError::NposElection(ne) => crate::feasibility::spec_winner_count_ok(
                        solution.compact,
                        snap.desired_targets,
                    ) && crate::compact::spec_voter_indices_valid(
                        solution.compact.votes@,
                        snap.voters@.len() as int,
                    ) && crate::compact::spec_target_indices_valid(
                        solution.compact.votes@,
                        snap.targets@.len() as int,
                    ) && crate::feasibility::spec_votes_in_approvals(
                        solution.compact.votes@,
                        snap.voters@,
                        snap.targets@,
                    ) && crate::feasibility::spec_canonical_staked(snap, solution.compact.votes@)
                        == Err::<Vec<crate::types::BackedAssignment>, _>(ne),
                    FeasibilityError::InvalidScore => crate::feasibility::spec_winner_count_ok(
                        solution.compact,
                        snap.desired_targets,
                    ) && crate::compact::spec_voter_indices_valid(
                        solution.compact.votes@,
                        snap.voters@.len() as int,
                    ) && crate::compact::spec_target_indices_valid(
                        solution.compact.votes@,
                        snap.targets@.len() as int,
                    ) && crate::feasibility::spec_votes_in_approvals(
                        solution.compact.votes@,
                        snap.voters@,
                        snap.targets@,
                    ) && crate::feasibility::spec_canonical_staked(snap, solution.compact.votes@)
                        is Ok && crate::feasibility::spec_compact_score(
                        snap,
                        solution.compact.votes@,
                    ) != Some(solution.score),
                    FeasibilityError::SnapshotUnavailable => true,
                },
                (_, None) => true,
            },
    {
        match &self.snapshot {
            None => Err(FeasibilityError::SnapshotUnavailable),
            Some(snap) => check_feasibility(snap, solution, compute),
        }
    }

    /// Drive the phase state machine at block `now`: open the signed phase
    /// when the predicted election is near enough, and close it into the
    /// unsigned phase when only the unsigned span remains.
    #[verifier::loop_isolation(false)]
    pub fn on_initialize(&mut self, now: BlockNumber, provider: ElectionDataProvider)
        requires
            old(self).wf(),
            old(self).round < u32::MAX,
            provider.voters@.len() <= u32::MAX,
            provider.targets@.len() <= u16::MAX,
            crate::snapshot::spec_distinct_keys(crate::snapshot::spec_voter_keys(
                provider.voters@,
            )),
        ensures
            final(self).wf(),
            final(self).round >= old(self).round,
            final(self).config == old(self).config,
            ({
                let next = if provider.next_election >= now {
                    provider.next_election
                } else {
                    now
                };
                let remaining = next - now;
                let u = old(self).config.unsigned_phase;
                let s = old(self).config.signed_phase;
                if old(self).current_phase is Off && remaining <= s + u && remaining > u {
                    final(self).current_phase == Phase::Signed && final(self).round == old(self).round + 1 && final(self).snapshot == Some(
                        RoundSnapshot {
                            voters: provider.voters,
                            targets: provider.targets,
                            desired_targets: provider.desired_targets,
                        },
                    ) && final(self).signed_submissions == old(self).signed_submissions && final(self).queued_solution == old(self).queued_solution && final(self).currency == old(self).currency && final(self).events == old(self).events && final(self).ocw_head
                        == old(self).ocw_head
                } else if old(self).current_phase is Signed && remaining <= u && remaining > 0 {
                    final(self).round == old(self).round && final(self).current_phase
                        == Phase::Unsigned(
                        !(exists|k: int|
                            0 <= k < old(self).signed_submissions@.len()
                                && crate::signed::spec_accepts(
                                old(self).snapshot,
                                (#[trigger] old(self).signed_submissions@[k]).solution,
                            )),
                        now,
                    ) && ((exists|k: int|
                        0 <= k < old(self).signed_submissions@.len()
                            && crate::signed::spec_accepts(
                            old(self).snapshot,
                            (#[trigger] old(self).signed_submissions@[k]).solution,
                        )) ==> final(self).queued_solution is Some) && (!(exists|k: int|
                        0 <= k < old(self).signed_submissions@.len()
                            && crate::signed::spec_accepts(
                            old(self).snapshot,
                            (#[trigger] old(self).signed_submissions@[k]).solution,
                        )) ==> final(self).queued_solution == old(self).queued_solution) && final(self).signed_submissions@.len() == 0 && final(self).currency.reserved@.len() == 0
                        && final(self).events@ == old(self).events@
                        + crate::signed::spec_finalize_trail(
                        old(self).signed_submissions@,
                        old(self).snapshot,
                    ) && final(self).snapshot == old(self).snapshot && final(self).ocw_head
                        == old(self).ocw_head
                } else {
                    *final(self) == *old(self)
                }
            }),
    {
        let next_election = provider.next_election;
        let next_election = if next_election >= now {
            next_election
        } else {
            now
        };
        let signed_deadline = self.config.signed_phase + self.config.unsigned_phase;
        let unsigned_deadline = self.config.unsigned_phase;
        let remaining = next_election - now;
        match self.current_phase {
            Phase::Off => {
                if remaining <= signed_deadline && remaining > unsigned_deadline {
                    self.current_phase = Phase::Signed;
                    self.round = self.round + 1;
                    self.start_signed_phase(provider);
                }
            },
            Phase::Signed => {
                if remaining <= unsigned_deadline && remaining > 0 {
                    let found_solution = self.finalize_signed_phase();
                    self.current_phase = Phase::Unsigned(!found_solution, now);
                }
            },
            _ => {},
        }
    }

    /// Open the signed phase: store the election data of the provider as
    /// the round's snapshot.
    pub fn start_signed_phase(&mut self, provider: ElectionDataProvider)
        requires
            provider.voters@.len() <= u32::MAX,
            provider.targets@.len() <= u16::MAX,
            crate::snapshot::spec_distinct_keys(crate::snapshot::spec_voter_keys(
                provider.voters@,
            )),
        ensures
            final(self).snapshot == Some(
                RoundSnapshot {
                    voters: provider.voters,
                    targets: provider.targets,
                    desired_targets: provider.desired_targets,
                },
            ),
            final(self).config == old(self).config,
            final(self).round == old(self).round,
            final(self).current_phase == old(self).current_phase,
            final(self).signed_submissions == old(self).signed_submissions,
            final(self).queued_solution == old(self).queued_solution,
            final(self).currency == old(self).currency,
            final(self).events == old(self).events,
            final(self).ocw_head == old(self).ocw_head,
    {
        let ElectionDataProvider { voters, targets, desired_targets, next_election } = provider;
        self.snapshot = Some(RoundSnapshot { voters, targets, desired_targets });
    }

    /// Yield the final winners of the round: the queued checked solution
    /// if one exists, or else a synchronous on-chain fallback election.
    /// On success the phase resets to `Off` and the snapshot is cleared.
    pub fn elect(&mut self) -> (r: Result<Supports, ElectionError>)
        requires
            old(self).wf(),
        ensures
            final(self).wf(),
            r is Ok <==> (old(self).queued_solution is Some || (old(self).snapshot matches Some(
                snap,
            ) && (crate::external::phragmen_of(
                snap.desired_targets as int,
                snap.targets@,
                crate::types::spec_voter_views(snap.voters@),
                None,
            ) matches Ok(res) && crate::external::staked_norm_of(
                crate::types::spec_ratio_views(res.assignments@),
                crate::types::spec_voter_views(snap.voters@),
            ) is Ok))),
            r is Ok ==> final(self).current_phase == Phase::Off && final(self).snapshot is None
                && final(self).queued_solution is None,
            old(self).queued_solution matches Some(ready) ==> r == Ok::<_, ElectionError>(
                ready.supports,
            ) && final(self).events@ == old(self).events@.push(
                RawEvent::ElectionFinalized(Some(ready.compute)),
            ),
            r matches Ok(sup) ==> old(self).queued_solution is None ==> (old(self).snapshot matches Some(snap) && crate::onchain::spec_onchain_result(
                snap.desired_targets as int,
                snap.targets@,
                snap.voters@,
                sup@,
            ) && sup@.len() <= snap.desired_targets && (forall|i: int|
                0 <= i < sup@.len() ==> snap.targets@.contains((#[trigger] sup@[i]).0)) && (forall|
                i: int,
                j: int,
            |
                0 <= i < sup@.len() && 0 <= j < (#[trigger] sup@[i]).1.voters@.len()
                    ==> crate::snapshot::spec_voter_keys(snap.voters@).contains(
                    (#[trigger] sup@[i].1.voters@[j]).0,
                )) && final(self).events@ == old(self).events@.push(
                RawEvent::ElectionFinalized(Some(ElectionCompute::OnChain)),
            )),
            r matches Err(e) ==> old(self).queued_solution is None && final(self).current_phase
                == old(self).current_phase && final(self).snapshot == old(self).snapshot && final(self).queued_solution is None && final(self).events@ == old(self).events@.push(
                RawEvent::ElectionFinalized(None),
            ) && match e {
                ElectionError::SnapshotUnAvailable => old(self).snapshot is None,
                ElectionError::OnChainFallback(ne) => old(self).snapshot matches Some(snap)
                    && crate::onchain::spec_onchain_error(
                    snap.desired_targets as int,
                    snap.targets@,
                    snap.voters@,
                    ne,
                ),
                _ => false,
            },
            final(self).round == old(self).round,
            final(self).signed_submissions == old(self).signed_submissions,
            final(self).currency == old(self).currency,
            final(self).config == old(self).config,
            final(self).ocw_head == old(self).ocw_head,
    {
        let queued = self.queued_solution.take();
        match queued {
            Some(ready) => {
                self.current_phase = Phase::Off;
                self.snapshot = None;
                self.events.push(RawEvent::ElectionFinalized(Some(ready.compute)));
                Ok(ready.supports)
            },
            None => {
                match self.onchain_fallback() {
                    Ok(supports) => {
                        self.current_phase = Phase::Off;
                        self.snapshot = None;
                        self.events.push(
                            RawEvent::ElectionFinalized(Some(ElectionCompute::OnChain)),
                        );
                        Ok(supports)
                    },
                    Err(e) => {
                        self.events.push(RawEvent::ElectionFinalized(None));
                        Err(e)
                    },
                }
            },
        }
    }

    /// Run the election on-chain from the existing snapshot, with no
    /// balancing and no reduction.
    fn onchain_fallback(&self) -> (r: Result<Supports, ElectionError>)
        ensures
            self.snapshot is None <==> r == Err::<Supports, _>(
                ElectionError::SnapshotUnAvailable,
            ),
            r is Ok <==> (self.snapshot matches Some(snap) && (crate::external::phragmen_of(
                snap.desired_targets as int,
                snap.targets@,
                crate::types::spec_voter_views(snap.voters@),
                None,
            ) matches Ok(res) && crate::external::staked_norm_of(
                crate::types::spec_ratio_views(res.assignments@),
                crate::types::spec_voter_views(snap.voters@),
            ) is Ok)),
            r matches Ok(sup) ==> (self.snapshot matches Some(snap)
                && crate::onchain::spec_onchain_result(
                snap.desired_targets as int,
                snap.targets@,
                snap.voters@,
                sup@,
            ) && sup@.len() <= snap.desired_targets && (forall|i: int|
                0 <= i < sup@.len() ==> snap.targets@.contains((#[trigger] sup@[i]).0)) && (forall|
                i: int,
                j: int,
            |
                0 <= i < sup@.len() && 0 <= j < (#[trigger] sup@[i]).1.voters@.len()
                    ==> crate::snapshot::spec_voter_keys(snap.voters@).contains(
                    (#[trigger] sup@[i].1.voters@[j]).0,
                ))),
            r matches Err(e) ==> match e {
                ElectionError::SnapshotUnAvailable => self.snapshot is None,
                ElectionError::OnChainFallback(ne) => self.snapshot matches Some(snap)
                    && crate::onchain::spec_onchain_error(
                    snap.desired_targets as int,
                    snap.targets@,
                    snap.voters@,
                    ne,
                ),
                _ => false,
            },
    {
        match &self.snapshot {
            None => Err(ElectionError::SnapshotUnAvailable),
            Some(snap) => {
                match crate::onchain::OnChainSequentialPhragmen::elect(
                    snap.desired_targets as usize,
                    &snap.targets,
                    &snap.voters,
                ) {
                    Ok(supports) => Ok(supports),
                    Err(crate::onchain::OnchainError::NposElections(ne)) => Err(
                        ElectionError::OnChainFallback(ne),
                    ),
                }
            },
        }
    }
}

} // verus!
