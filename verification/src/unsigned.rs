//! The unsigned phase: pool-time and dispatch-time gating of unsigned
//! submissions, the dispatch itself, and the off-chain worker's re-run
//! guard.

use vstd::prelude::*;
use crate::types::{
    BlockNumber, ElectionCompute, FeasibilityError, InvalidTransaction, PalletError, Phase,
    RawEvent, TransactionSource, TransactionValidity, ValidTransaction, WitnessData,
};
use crate::compact::RawSolution;
use crate::pallet::Module;
use crate::score::{is_score_better, spec_is_score_better};

verus! {

/// The repeat threshold of the off-chain worker: it will not run twice
/// within a window of this many blocks.
pub const OFFCHAIN_REPEAT: u32 = 5;

/// Default number of blocks for which an unsigned transaction should stay
/// in the pool.
pub const DEFAULT_LONGEVITY: u64 = 25;

/// The custom code carried by unsigned submissions rejected at validation
/// or pre-dispatch time.
pub const INVALID_SUBMISSION_CODE: u8 = 99;

/// Dispatchable calls of the provider.
#[derive(Clone, PartialEq, Debug)]
#[allow(non_camel_case_types)]
pub enum Call {
    /// Submit a solution for the signed phase.
    submit(RawSolution),
    /// Submit a solution for the unsigned phase, with its size witness.
    submit_unsigned(RawSolution, WitnessData),
}

/// Why the off-chain worker must not run at a block.
#[derive(Clone, Copy, PartialEq, Eq, Structural, Debug)]
pub enum OffchainGuardError {
    /// The block is older than the recorded head: a re-org or fork.
    Fork,
    /// The worker ran recently, within the repeat window.
    RecentlyExecuted,
}

impl OffchainGuardError {
    /// A short text for this rejection.
    pub fn as_str(&self) -> (r: &'static str) {
        match self {
            OffchainGuardError::Fork => "fork.",
            OffchainGuardError::RecentlyExecuted => "recently executed.",
        }
    }
}

/// Errors of the unsigned submission dispatch.
#[derive(Clone, Copy, PartialEq, Eq, Structural, Debug)]
pub enum SubmitUnsignedError {
    /// A pre-dispatch check failed: the submission is returned to sender.
    Dispatch(PalletError),
    /// The feasibility check failed. An invalid unsigned submission must
    /// abort block authoring, depriving its author of the block reward:
    /// the host must escalate this error to an unwind, never swallow it.
    Infeasible(FeasibilityError),
}

/// Map a failed dispatch to the custom rejection that the pool reports.
pub fn dispatch_error_to_invalid(error: PalletError) -> (r: InvalidTransaction)
    ensures
        r == InvalidTransaction::Custom(INVALID_SUBMISSION_CODE),
{
    let _ = error;
    InvalidTransaction::Custom(INVALID_SUBMISSION_CODE)
}

/// Whether the pre-dispatch checks accept `solution` in state `m`: the
/// unsigned phase must be open, and the score must improve on the queued
/// solution, if any, by the configured threshold.
pub open spec fn spec_pre_dispatch_ok(m: Module, solution: RawSolution) -> bool {
    &&& m.current_phase matches Phase::Unsigned(true, _)
    &&& match m.queued_solution {
        Some(q) => spec_is_score_better(
            solution.score,
            q.score,
            m.config.solution_improvement_threshold_parts,
        ),
        None => true,
    }
}

/// Saturate a balance into a priority.
pub open spec fn spec_saturate_u64(x: u128) -> u64 {
    if x > u64::MAX {
        u64::MAX
    } else {
        x as u64
    }
}

/// The pool priority of an accepted unsigned submission: the configured
/// base plus the primary score element, saturating.
pub open spec fn spec_unsigned_priority(base: u64, score: u128) -> u64 {
    if base + spec_saturate_u64(score) > u64::MAX {
        u64::MAX
    } else {
        (base + spec_saturate_u64(score)) as u64
    }
}

impl Module {
    /// The cheap checks run both at pool-validation and at pre-dispatch
    /// time: timeliness, then score improvement.
    pub fn unsigned_pre_dispatch_checks(&self, solution: &RawSolution) -> (r: Result<
        (),
        PalletError,
    >)
        requires
            self.wf(),
        ensures
            r is Ok <==> spec_pre_dispatch_ok(*self, *solution),
            r == Err::<(), PalletError>(PalletError::EarlySubmission) <==> !(self.current_phase
                matches Phase::Unsigned(true, _)),
            r == Err::<(), PalletError>(PalletError::WeakSubmission) <==> (self.current_phase
                matches Phase::Unsigned(true, _)) && !(match self.queued_solution {
                Some(q) => spec_is_score_better(
                    solution.score,
                    q.score,
                    self.config.solution_improvement_threshold_parts,
                ),
                None => true,
            }),
    {
        if !self.current_phase.is_unsigned_open() {
            return Err(PalletError::EarlySubmission);
        }
        match &self.queued_solution {
            Some(q) => {
                if !is_score_better(
                    solution.score,
                    q.score,
                    self.config.solution_improvement_threshold_parts,
                ) {
                    return Err(PalletError::WeakSubmission);
                }
            },
            None => {},
        }
        Ok(())
    }

    /// Gate an unsigned transaction at pool-ingest time. Only local calls
    /// carrying an unsigned submission pass; the submission must satisfy
    /// the pre-dispatch checks; the verdict carries the priority, the
    /// round deduplication tag, the longevity and a no-propagate flag.
    pub fn validate_unsigned(&self, source: TransactionSource, call: &Call) -> (r:
        TransactionValidity)
        requires
            self.wf(),
        ensures
            match *call {
                Call::submit_unsigned(ref solution, _) => {
                    if source is External {
                        r == Err::<ValidTransaction, _>(InvalidTransaction::Call)
                    } else if !spec_pre_dispatch_ok(*self, *solution) {
                        r == Err::<ValidTransaction, _>(
                            InvalidTransaction::Custom(INVALID_SUBMISSION_CODE),
                        )
                    } else {
                        r == Ok::<_, InvalidTransaction>(
                            ValidTransaction {
                                priority: spec_unsigned_priority(
                                    self.config.unsigned_priority,
                                    solution.score.minimal_stake,
                                ),
                                provides_round: solution.round,
                                longevity: if self.config.unsigned_phase < DEFAULT_LONGEVITY {
                                    self.config.unsigned_phase
                                } else {
                                    DEFAULT_LONGEVITY
                                },
                                propagate: false,
                            },
                        )
                    }
                },
                Call::submit(_) => r == Err::<ValidTransaction, _>(InvalidTransaction::Call),
            },
    {
        match call {
            Call::submit_unsigned(solution, _witness) => {
                match source {
                    TransactionSource::Local => {},
                    TransactionSource::InBlock => {},
                    TransactionSource::External => {
                        return Err(InvalidTransaction::Call);
                    },
                }
                match self.unsigned_pre_dispatch_checks(solution) {
                    Ok(()) => {},
                    Err(e) => {
                        return Err(dispatch_error_to_invalid(e));
                    },
                }
                let score_part: u64 = if solution.score.minimal_stake > u64::MAX as u128 {
                    u64::MAX
                } else {
                    solution.score.minimal_stake as u64
                };
                let priority: u64 = if self.config.unsigned_priority > u64::MAX - score_part {
                    u64::MAX
                } else {
                    self.config.unsigned_priority + score_part
                };
                let longevity: u64 = if self.config.unsigned_phase < DEFAULT_LONGEVITY {
                    self.config.unsigned_phase
                } else {
                    DEFAULT_LONGEVITY
                };
                Ok(
                    ValidTransaction {
                        priority,
                        provides_round: solution.round,
                        longevity,
                        propagate: false,
                    },
                )
            },
            Call::submit(_) => Err(InvalidTransaction::Call),
        }
    }

    /// Re-run the cheap checks right before dispatch; a failure carries
    /// the custom rejection code.
    pub fn pre_dispatch(&self, call: &Call) -> (r: Result<(), InvalidTransaction>)
        requires
            self.wf(),
        ensures
            match *call {
                Call::submit_unsigned(ref solution, _) => if spec_pre_dispatch_ok(
                    *self,
                    *solution,
                ) {
                    r is Ok
                } else {
                    r == Err::<(), _>(InvalidTransaction::Custom(INVALID_SUBMISSION_CODE))
                },
                Call::submit(_) => r == Err::<(), _>(InvalidTransaction::Call),
            },
    {
        match call {
            Call::submit_unsigned(solution, _witness) => {
                match self.unsigned_pre_dispatch_checks(solution) {
                    Ok(()) => Ok(()),
                    Err(e) => Err(dispatch_error_to_invalid(e)),
                }
            },
            Call::submit(_) => Err(InvalidTransaction::Call),
        }
    }

    /// Decide whether the off-chain worker may run at block `now`, and
    /// record the block when it may. A run is allowed when no head is
    /// recorded, or when `now` lies more than the repeat window past the
    /// recorded head. A block before the head is a fork; one inside the
    /// window ran too recently.
    pub fn set_check_offchain_execution_status(&mut self, now: BlockNumber) -> (r: Result<
        (),
        OffchainGuardError,
    >)
        ensures
            match old(self).ocw_head {
                Some(head) => if now < head {
                    r == Err::<(), _>(OffchainGuardError::Fork) && final(self).ocw_head == old(self).ocw_head
                } else if now <= head + OFFCHAIN_REPEAT {
                    r == Err::<(), _>(OffchainGuardError::RecentlyExecuted) && final(self).ocw_head == old(self).ocw_head
                } else {
                    r is Ok && final(self).ocw_head == Some(now)
                },
                None => r is Ok && final(self).ocw_head == Some(now),
            },
            final(self).config == old(self).config,
            final(self).round == old(self).round,
            final(self).current_phase == old(self).current_phase,
            final(self).signed_submissions == old(self).signed_submissions,
            final(self).queued_solution == old(self).queued_solution,
            final(self).snapshot == old(self).snapshot,
            final(self).currency == old(self).currency,
            final(self).events == old(self).events,
    {
        match self.ocw_head {
            Some(head) => {
                if now < head {
                    Err(OffchainGuardError::Fork)
                } else if now - head <= OFFCHAIN_REPEAT as u64 {
                    Err(OffchainGuardError::RecentlyExecuted)
                } else {
                    self.ocw_head = Some(now);
                    Ok(())
                }
            },
            None => {
                self.ocw_head = Some(now);
                Ok(())
            },
        }
    }

    /// Dispatch an unsigned submission: re-run the cheap checks, then the
    /// full feasibility check. A feasible solution becomes the queued
    /// solution. An infeasible one is a fatal error: the host must let it
    /// abort block authoring.
    pub fn submit_unsigned(&mut self, solution: RawSolution, witness: WitnessData) -> (r: Result<
        (),
        SubmitUnsignedError,
    >)
        requires
            old(self).wf(),
        ensures
            final(self).wf(),
            r is Ok <==> (spec_pre_dispatch_ok(*old(self), solution)
                && crate::signed::spec_accepts(old(self).snapshot, solution)),
            match r {
                Ok(()) => spec_pre_dispatch_ok(*old(self), solution)
                    && (final(self).queued_solution matches Some(ready)
                        && ready.compute == ElectionCompute::Unsigned
                        && ready.score == solution.score
                        && crate::score::spec_evaluate(ready.supports@) == solution.score
                        && (old(self).snapshot matches Some(snap)
                            && (crate::feasibility::spec_canonical_staked(
                            snap,
                            solution.compact.votes@,
                        ) matches Ok(s) && crate::feasibility::spec_supports_match(
                            crate::feasibility::spec_winner_accounts(
                                solution.compact.votes@,
                                snap.targets@,
                            ),
                            s@,
                            ready.supports@,
                        )))) && final(self).events@ == old(self).events@.push(
                    RawEvent::SolutionStored(ElectionCompute::Unsigned),
                ),
                Err(SubmitUnsignedError::Dispatch(e)) => !spec_pre_dispatch_ok(
                    *old(self),
                    solution,
                ) && crate::pallet::spec_state_eq(*final(self), *old(self)) && ((e
                    == PalletError::EarlySubmission) <==> !(old(self).current_phase
                    matches Phase::Unsigned(true, _))) && ((e == PalletError::WeakSubmission)
                    <==> ((old(self).current_phase matches Phase::Unsigned(true, _)) && !(
                match old(self).queued_solution {
                    Some(q) => spec_is_score_better(
                        solution.score,
                        q.score,
                        old(self).config.solution_improvement_threshold_parts,
                    ),
                    None => true,
                }))),
                Err(SubmitUnsignedError::Infeasible(f)) => spec_pre_dispatch_ok(
                    *old(self),
                    solution,
                ) && !crate::signed::spec_accepts(old(self).snapshot, solution) && f
                    != FeasibilityError::SnapshotUnavailable && (old(self).snapshot matches Some(
                    snap,
                ) && match f {
                    FeasibilityError::WrongWinnerCount => !crate::feasibility::spec_winner_count_ok(
                        solution.compact,
                        snap.desired_targets,
                    ),
                    FeasibilityError::InvalidVoter => !crate::compact::spec_voter_indices_valid(
                        solution.compact.votes@,
                        snap.voters@.len() as int,
                    ),
                    FeasibilityError::InvalidWinner => !crate::compact::spec_target_indices_valid(
                        solution.compact.votes@,
                        snap.targets@.len() as int,
                    ),
                    FeasibilityError::InvalidVote => !crate::feasibility::spec_votes_in_approvals(
                        solution.compact.votes@,
                        snap.voters@,
                        snap.targets@,
                    ),
                    FeasibilityError::NposElection(ne) => crate::feasibility::spec_canonical_staked(
                        snap,
                        solution.compact.votes@,
                    ) == Err::<Vec<crate::types::BackedAssignment>, _>(ne),
                    FeasibilityError::InvalidScore => crate::feasibility::spec_compact_score(
                        snap,
                        solution.compact.votes@,
                    ) != Some(solution.score),
                    FeasibilityError::SnapshotUnavailable => false,
                }) && crate::pallet::spec_state_eq(*final(self), *old(self)),
            },
            final(self).current_phase == old(self).current_phase,
            final(self).round == old(self).round,
            final(self).snapshot == old(self).snapshot,
            final(self).signed_submissions == old(self).signed_submissions,
            final(self).currency == old(self).currency,
            final(self).config == old(self).config,
            final(self).ocw_head == old(self).ocw_head,
    {
        let _ = witness;
        match self.unsigned_pre_dispatch_checks(&solution) {
            Ok(()) => {},
            Err(e) => {
                return Err(SubmitUnsignedError::Dispatch(e));
            },
        }
        match self.feasibility_check(solution, ElectionCompute::Unsigned) {
            Ok(ready) => {
                self.queued_solution = Some(ready);
                self.events.push(RawEvent::SolutionStored(ElectionCompute::Unsigned));
                Ok(())
            },
            Err(f) => Err(SubmitUnsignedError::Infeasible(f)),
        }
    }
}

} // verus!
