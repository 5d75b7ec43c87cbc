//! The signed phase: the bonded, score-ordered queue of unverified
//! submissions, the deposit and reward formulas, and the finalization that
//! drains the queue best first.

use vstd::prelude::*;
use crate::types::{AccountId, Balance, Config, ElectionCompute, PalletError, RawEvent, RoundSnapshot};
use crate::compact::{RawSolution, SignedSubmission};
use crate::codec::{encode_raw_solution, spec_enc_raw_solution, spec_raw_solution_wf};
use crate::pallet::{spec_config_wf, spec_queue_reservations, spec_queue_sorted, spec_state_eq, Module};
use crate::score::{
    is_score_better, lemma_threshold_scaled_expansive, parts_mul_floor, sat_add, sat_add_spec,
    sat_mul, sat_mul_spec, spec_is_score_better, spec_parts_mul_floor, spec_threshold_scaled,
};
use vstd::seq_lib::group_to_multiset_ensures;

verus! {

broadcast use group_to_multiset_ensures;

/// The deposit charged for storing a signed solution: a base, a per-byte
/// rent over the encoded solution, and a per-weight-unit charge for the
/// upcoming feasibility check, all saturating.
pub open spec fn spec_deposit_for(c: Config, s: RawSolution) -> Balance {
    sat_add_spec(
        c.signed_deposit_base,
        sat_add_spec(
            sat_mul_spec(c.signed_deposit_byte, spec_enc_raw_solution(s).len() as u128),
            sat_mul_spec(c.signed_deposit_weight, c.feasibility_check_weight as u128),
        ),
    )
}

/// The reward paid if a signed solution is chosen as the final one: a base
/// plus a fraction of the primary score element, capped if a cap is
/// configured.
pub open spec fn spec_reward_for(c: Config, s: RawSolution) -> Balance {
    let uncapped = sat_add_spec(
        c.signed_reward_base,
        spec_parts_mul_floor(s.score.minimal_stake, c.signed_reward_factor_parts) as u128,
    );
    match c.signed_reward_max {
        Some(m) => if uncapped > m {
            m
        } else {
            uncapped
        },
        None => uncapped,
    }
}

/// The queue entry that a submission of `solution` by `who` creates.
pub open spec fn spec_new_submission(c: Config, who: AccountId, solution: RawSolution)
    -> SignedSubmission {
    SignedSubmission {
        who,
        deposit: spec_deposit_for(c, solution),
        reward: spec_reward_for(c, solution),
        solution,
    }
}

/// Inserting at a position that improves on everything below it and on
/// nothing above it keeps the queue sorted.
proof fn lemma_sorted_insert(
    q: Seq<SignedSubmission>,
    t: u32,
    sub: SignedSubmission,
    at: int,
)
    requires
        t <= crate::types::PARTS_ONE,
        spec_queue_sorted(q, t),
        0 <= at <= q.len(),
        at > 0 ==> spec_is_score_better(sub.solution.score, q[at - 1].solution.score, t),
        forall|k: int|
            at <= k < q.len() ==> !spec_is_score_better(
                sub.solution.score,
                (#[trigger] q[k]).solution.score,
                t,
            ),
    ensures
        spec_queue_sorted(q.insert(at, sub), t),
{
    let q2 = q.insert(at, sub);
    assert forall|i: int, j: int|
        0 <= i < j < q2.len() implies (#[trigger] q2[i]).solution.score.minimal_stake
        <= spec_threshold_scaled((#[trigger] q2[j]).solution.score.minimal_stake, t) by {
        lemma_threshold_scaled_expansive(sub.solution.score.minimal_stake, t);
        if i == at {
            // `sub` sits at `i`; the later element is an old `q[j - 1]`.
            assert(q2[j] == q[j - 1]);
            assert(!spec_is_score_better(sub.solution.score, q[j - 1].solution.score, t));
        } else if j == at {
            // the earlier element is an old `q[i]`; `sub` sits at `j`.
            assert(q2[i] == q[i]);
            lemma_threshold_scaled_expansive(q[at - 1].solution.score.minimal_stake, t);
            if i < at - 1 {
                assert(q[i].solution.score.minimal_stake <= spec_threshold_scaled(
                    q[at - 1].solution.score.minimal_stake,
                    t,
                ));
            }
        } else {
            let oi = if i < at {
                i
            } else {
                i - 1
            };
            let oj = if j < at {
                j
            } else {
                j - 1
            };
            assert(q2[i] == q[oi]);
            assert(q2[j] == q[oj]);
            if oi < oj {
            } else {
                assert(oi == oj);
                lemma_threshold_scaled_expansive(q[oi].solution.score.minimal_stake, t);
            }
        }
    }
}

/// A sequence with one element inserted carries that element's image in
/// its reservation bag.
proof fn lemma_reservations_insert(q: Seq<SignedSubmission>, at: int, sub: SignedSubmission)
    requires
        0 <= at <= q.len(),
    ensures
        spec_queue_reservations(q.insert(at, sub)) == spec_queue_reservations(q).insert(
            (sub.who, sub.deposit),
        ),
{
    let f = |s: SignedSubmission| (s.who, s.deposit);
    let m = q.insert(at, sub).map_values(f);
    assert(m.remove(at) =~= q.map_values(f));
    assert(m[at] == (sub.who, sub.deposit));
    assert(m.remove(at).to_multiset() =~= m.to_multiset().remove((sub.who, sub.deposit)));
    assert(m.to_multiset().count((sub.who, sub.deposit)) > 0) by {
        assert(m[at] == (sub.who, sub.deposit));
        assert(m.contains((sub.who, sub.deposit)));
    }
    assert(m.to_multiset() =~= q.map_values(f).to_multiset().insert((sub.who, sub.deposit)));
}

/// A sequence with one element removed loses that element's image from
/// its reservation bag.
proof fn lemma_reservations_remove(q: Seq<SignedSubmission>, at: int)
    requires
        0 <= at < q.len(),
    ensures
        spec_queue_reservations(q.remove(at)) == spec_queue_reservations(q).remove(
            (q[at].who, q[at].deposit),
        ),
{
    let f = |s: SignedSubmission| (s.who, s.deposit);
    assert(q.remove(at).map_values(f) =~= q.map_values(f).remove(at));
    assert(q.map_values(f)[at] == (q[at].who, q[at].deposit));
    assert(q.map_values(f).remove(at).to_multiset() =~= q.map_values(f).to_multiset().remove(
        (q[at].who, q[at].deposit),
    ));
}

impl Module {
    /// Collect the deposit owed for storing this solution on chain.
    pub fn deposit_for(&self, solution: &RawSolution) -> (r: Balance)
        requires
            spec_raw_solution_wf(*solution),
        ensures
            r == spec_deposit_for(self.config, *solution),
    {
        let encoded = encode_raw_solution(solution);
        let len_deposit = sat_mul(self.config.signed_deposit_byte, encoded.len() as u128);
        let weight_deposit = sat_mul(
            self.config.signed_deposit_weight,
            self.config.feasibility_check_weight as u128,
        );
        sat_add(self.config.signed_deposit_base, sat_add(len_deposit, weight_deposit))
    }

    /// The reward for this solution, if chosen as the best one at the end
    /// of the signed phase.
    pub fn reward_for(&self, solution: &RawSolution) -> (r: Balance)
        requires
            spec_config_wf(self.config),
        ensures
            r == spec_reward_for(self.config, *solution),
    {
        let factor_part = parts_mul_floor(
            solution.score.minimal_stake,
            self.config.signed_reward_factor_parts,
        );
        let uncapped = sat_add(self.config.signed_reward_base, factor_part);
        match self.config.signed_reward_max {
            Some(m) => if uncapped > m {
                m
            } else {
                uncapped
            },
            None => uncapped,
        }
    }

    /// Find the proper position in the queue for a new submission, keeping
    /// the order of solution quality, and insert it there. Scanning from
    /// the best end, the submission lands just above the best entry it
    /// improves on by the threshold, or at the worst end if it improves on
    /// none. A submission that improves on nothing is rejected when the
    /// queue is full; otherwise an insertion that overflows the bound
    /// evicts the worst entry, which is returned for its refund.
    #[verifier::loop_isolation(false)]
    pub fn insert_submission(
        config: &Config,
        who: AccountId,
        queue: &mut Vec<SignedSubmission>,
        solution: RawSolution,
    ) -> (r: Option<(usize, Option<SignedSubmission>)>)
        requires
            spec_config_wf(*config),
            spec_raw_solution_wf(solution),
            spec_queue_sorted(old(queue)@, config.solution_improvement_threshold_parts),
            old(queue)@.len() <= config.max_signed_submissions,
        ensures
            spec_queue_sorted(final(queue)@, config.solution_improvement_threshold_parts),
            final(queue)@.len() <= config.max_signed_submissions,
            r is None <==> (old(queue)@.len() >= config.max_signed_submissions && forall|k: int|
                0 <= k < old(queue)@.len() ==> !spec_is_score_better(
                    solution.score,
                    (#[trigger] old(queue)@[k]).solution.score,
                    config.solution_improvement_threshold_parts,
                )),
            r is None ==> final(queue)@ == old(queue)@,
            match r {
                Some((pos, evicted)) => exists|at: int|
                    #![trigger old(queue)@.insert(at, spec_new_submission(*config, who, solution))]
                    {
                        &&& 0 <= at <= old(queue)@.len()
                        &&& at > 0 ==> spec_is_score_better(
                            solution.score,
                            old(queue)@[at - 1].solution.score,
                            config.solution_improvement_threshold_parts,
                        )
                        &&& forall|k: int|
                            at <= k < old(queue)@.len() ==> !spec_is_score_better(
                                solution.score,
                                (#[trigger] old(queue)@[k]).solution.score,
                                config.solution_improvement_threshold_parts,
                            )
                        &&& if old(queue)@.len() < config.max_signed_submissions {
                            evicted is None && pos == at && final(queue)@ == old(queue)@.insert(
                                at,
                                spec_new_submission(*config, who, solution),
                            )
                        } else {
                            at >= 1 && evicted == Some(old(queue)@[0]) && pos == at - 1 && final(queue)@ == old(queue)@.insert(
                                at,
                                spec_new_submission(*config, who, solution),
                            ).remove(0)
                        }
                    },
                None => true,
            },
    {
        let ghost t = config.solution_improvement_threshold_parts;
        let ghost q0 = queue@;
        let mut at: usize = 0;
        let mut found_at = false;
        let mut i: usize = queue.len();
        while i > 0 && !found_at
            invariant
                i <= queue@.len(),
                queue@ == q0,
                spec_config_wf(*config),
                !found_at ==> at == 0 && forall|k: int|
                    i <= k < queue@.len() ==> !spec_is_score_better(
                        solution.score,
                        (#[trigger] queue@[k]).solution.score,
                        t,
                    ),
                found_at ==> at == i && 1 <= i && spec_is_score_better(
                    solution.score,
                    queue@[i - 1].solution.score,
                    t,
                ) && forall|k: int|
                    i <= k < queue@.len() ==> !spec_is_score_better(
                        solution.score,
                        (#[trigger] queue@[k]).solution.score,
                        t,
                    ),
            decreases (if found_at { 0int } else { i + 1 }),
        {
            if is_score_better(
                solution.score,
                queue[i - 1].solution.score,
                config.solution_improvement_threshold_parts,
            ) {
                at = i;
                found_at = true;
            } else {
                i = i - 1;
            }
        }
        let ghost at_g = at as int;
        proof {
            assert(at_g > 0 ==> spec_is_score_better(
                solution.score,
                q0[at_g - 1].solution.score,
                t,
            ));
            assert(forall|k: int|
                at_g <= k < q0.len() ==> !spec_is_score_better(
                    solution.score,
                    (#[trigger] q0[k]).solution.score,
                    t,
                ));
        }
        if at == 0 && queue.len() >= queue_bound(config) {
            return None;
        }
        let deposit = deposit_for_config(config, &solution);
        let reward = reward_for_config(config, &solution);
        let submission = SignedSubmission { who, deposit, reward, solution };
        proof {
            assert(submission == spec_new_submission(*config, who, solution));
            lemma_sorted_insert(q0, t, submission, at_g);
        }
        queue.insert(at, submission);
        if queue.len() > queue_bound(config) {
            let evicted = queue.remove(0);
            proof {
                assert(q0.len() >= config.max_signed_submissions);
                assert(at_g >= 1) by {
                    if at_g == 0 {
                        assert(q0.len() < config.max_signed_submissions);
                    }
                }
                assert(evicted == q0.insert(at_g, submission)[0]);
                assert(q0.insert(at_g, submission)[0] == q0[0]);
                assert(spec_queue_sorted(queue@, t)) by {
                    let q1 = q0.insert(at_g, submission);
                    assert(forall|i: int, j: int|
                        0 <= i < j < q1.remove(0).len() ==> (#[trigger] q1.remove(0)[i])
                            == q1[i + 1] && (#[trigger] q1.remove(0)[j]) == q1[j + 1]);
                }
            }
            Some((at - 1, Some(evicted)))
        } else {
            Some((at, None))
        }
    }
}

/// Whether a submission would be accepted against the round's snapshot.
pub open spec fn spec_accepts(snapshot: Option<RoundSnapshot>, solution: RawSolution) -> bool {
    match snapshot {
        Some(snap) => crate::feasibility::spec_feasible(snap, solution),
        None => false,
    }
}

/// The events that finalization emits: examined submissions best first, a
/// slash for each infeasible one, then one reward for the first feasible
/// one, where the examination stops.
pub open spec fn spec_finalize_trail(
    q: Seq<SignedSubmission>,
    snapshot: Option<RoundSnapshot>,
) -> Seq<RawEvent>
    decreases q.len(),
{
    if q.len() == 0 {
        Seq::<RawEvent>::empty()
    } else if spec_accepts(snapshot, q.last().solution) {
        seq![RawEvent::Rewarded(q.last().who)]
    } else {
        seq![RawEvent::Slashed(q.last().who)] + spec_finalize_trail(q.drop_last(), snapshot)
    }
}

/// The slash counter after finalization: the deposit of every submission
/// examined before the first feasible one is slashed, in examination
/// order, saturating.
pub open spec fn spec_slashed_after(
    start: u128,
    q: Seq<SignedSubmission>,
    snapshot: Option<RoundSnapshot>,
) -> u128
    decreases q.len(),
{
    if q.len() == 0 {
        start
    } else if spec_accepts(snapshot, q.last().solution) {
        start
    } else {
        spec_slashed_after(sat_add_spec(start, q.last().deposit), q.drop_last(), snapshot)
    }
}

impl Module {
    /// Finish the signed phase: examine the submissions best first. The
    /// first feasible one is stored as the queued solution, its deposit
    /// returned and its reward paid; infeasible ones along the way are
    /// slashed; all remaining submissions get their deposit back
    /// untouched. Afterwards the queue and the held deposits are empty.
    #[verifier::loop_isolation(false)]
    pub fn finalize_signed_phase(&mut self) -> (found: bool)
        requires
            old(self).wf(),
        ensures
            final(self).wf(),
            final(self).signed_submissions@.len() == 0,
            final(self).currency.reserved@.len() == 0,
            found == (exists|k: int|
                0 <= k < old(self).signed_submissions@.len() && spec_accepts(
                    old(self).snapshot,
                    (#[trigger] old(self).signed_submissions@[k]).solution,
                )),
            found ==> (exists|k: int|
                #![trigger old(self).signed_submissions@[k]]
                {
                    &&& 0 <= k < old(self).signed_submissions@.len()
                    &&& spec_accepts(old(self).snapshot, old(self).signed_submissions@[k].solution)
                    &&& forall|j: int|
                        k < j < old(self).signed_submissions@.len() ==> !spec_accepts(
                            old(self).snapshot,
                            (#[trigger] old(self).signed_submissions@[j]).solution,
                        )
                    &&& (final(self).queued_solution matches Some(ready) && ready.compute
                        == ElectionCompute::Signed && ready.score
                        == old(self).signed_submissions@[k].solution.score
                        && crate::score::spec_evaluate(ready.supports@) == ready.score)
                    &&& final(self).currency.rewarded == sat_add_spec(
                        old(self).currency.rewarded,
                        old(self).signed_submissions@[k].reward,
                    )
                }),
            !found ==> final(self).queued_solution == old(self).queued_solution
                && final(self).currency.rewarded == old(self).currency.rewarded,
            final(self).events@ == old(self).events@ + spec_finalize_trail(
                old(self).signed_submissions@,
                old(self).snapshot,
            ),
            final(self).currency.slashed == spec_slashed_after(
                old(self).currency.slashed,
                old(self).signed_submissions@,
                old(self).snapshot,
            ),
            final(self).current_phase == old(self).current_phase,
            final(self).round == old(self).round,
            final(self).snapshot == old(self).snapshot,
            final(self).config == old(self).config,
            final(self).ocw_head == old(self).ocw_head,
    {
        let ghost q0 = self.signed_submissions@;
        let ghost snap0 = self.snapshot;
        let ghost ev0 = self.events@;
        let ghost slashed0 = self.currency.slashed;
        let ghost rewarded0 = self.currency.rewarded;
        let ghost mut k_star: int = 0;
        let mut found_solution = false;
        while !found_solution && self.signed_submissions.len() > 0
            invariant
                self.wf(),
                self.current_phase == old(self).current_phase,
                self.round == old(self).round,
                self.snapshot == old(self).snapshot,
                self.config == old(self).config,
                self.ocw_head == old(self).ocw_head,
                self.signed_submissions@.len() <= q0.len(),
                q0.take(self.signed_submissions@.len() as int) == self.signed_submissions@,
                !found_solution ==> {
                    &&& self.queued_solution == old(self).queued_solution
                    &&& self.currency.rewarded == rewarded0
                    &&& forall|j: int|
                        self.signed_submissions@.len() <= j < q0.len() ==> !spec_accepts(
                            snap0,
                            (#[trigger] q0[j]).solution,
                        )
                    &&& ev0 + spec_finalize_trail(q0, snap0) == self.events@ + spec_finalize_trail(
                        self.signed_submissions@,
                        snap0,
                    )
                    &&& spec_slashed_after(slashed0, q0, snap0) == spec_slashed_after(
                        self.currency.slashed,
                        self.signed_submissions@,
                        snap0,
                    )
                },
                found_solution ==> {
                    &&& 0 <= k_star < q0.len()
                    &&& spec_accepts(snap0, q0[k_star].solution)
                    &&& forall|j: int|
                        k_star < j < q0.len() ==> !spec_accepts(
                            snap0,
                            (#[trigger] q0[j]).solution,
                        )
                    &&& (self.queued_solution matches Some(ready) && ready.compute
                        == ElectionCompute::Signed && ready.score == q0[k_star].solution.score
                        && crate::score::spec_evaluate(ready.supports@) == ready.score)
                    &&& self.currency.rewarded == sat_add_spec(rewarded0, q0[k_star].reward)
                    &&& self.events@ == ev0 + spec_finalize_trail(q0, snap0)
                    &&& self.currency.slashed == spec_slashed_after(slashed0, q0, snap0)
                },
            decreases self.signed_submissions@.len(),
        {
            let ghost q_before = self.signed_submissions@;
            let ghost ev_before = self.events@;
            let ghost slashed_before = self.currency.slashed;
            let best = match self.signed_submissions.pop() {
                Some(b) => b,
                None => {
                    break ;
                },
            };
            proof {
                assert(q_before.subrange(0, q_before.len() - 1) =~= q_before.remove(
                    q_before.len() - 1,
                ));
                lemma_reservations_remove(q_before, q_before.len() - 1);
                assert(spec_queue_reservations(q_before).count((best.who, best.deposit)) > 0)
                    by {
                    assert(q_before.map_values(
                        |s: SignedSubmission| (s.who, s.deposit),
                    )[q_before.len() - 1] == (best.who, best.deposit));
                    assert(q_before.map_values(|s: SignedSubmission| (s.who, s.deposit)).contains(
                        (best.who, best.deposit),
                    ));
                }
                assert(self.currency.reserved@.contains((best.who, best.deposit)));
                assert(q_before.last() == q0[q_before.len() - 1]);
                assert(q_before.drop_last() =~= q_before.subrange(0, q_before.len() - 1));
                assert(q0.take(q_before.len() - 1) =~= q_before.drop_last());
            }
            let ghost sol = best.solution;
            let SignedSubmission { who, deposit, reward, solution } = best;
            match self.feasibility_check(solution, ElectionCompute::Signed) {
                Ok(ready_solution) => {
                    proof {
                        k_star = q_before.len() - 1;
                        assert(spec_accepts(snap0, q0[k_star].solution));
                        assert(spec_finalize_trail(q_before, snap0) =~= seq![
                            RawEvent::Rewarded(who),
                        ]);
                    }
                    self.queued_solution = Some(ready_solution);
                    let _fully_released = self.currency.unreserve(who, deposit);
                    self.currency.deposit_creating(who, reward);
                    self.events.push(RawEvent::Rewarded(who));
                    proof {
                        assert(self.events@ =~= ev_before + seq![RawEvent::Rewarded(who)]);
                        assert(ev_before + spec_finalize_trail(q_before, snap0)
                            =~= self.events@);
                        assert(spec_slashed_after(slashed_before, q_before, snap0)
                            == slashed_before);
                    }
                    found_solution = true;
                },
                Err(_) => {
                    proof {
                        assert(!spec_accepts(snap0, q0[q_before.len() - 1].solution));
                        assert(spec_finalize_trail(q_before, snap0) == seq![
                            RawEvent::Slashed(who),
                        ] + spec_finalize_trail(q_before.drop_last(), snap0));
                    }
                    let _fully_slashed = self.currency.slash_reserved(who, deposit);
                    self.events.push(RawEvent::Slashed(who));
                    proof {
                        assert(self.events@ =~= ev_before + seq![RawEvent::Slashed(who)]);
                        assert(ev_before + spec_finalize_trail(q_before, snap0) =~= self.events@
                            + spec_finalize_trail(self.signed_submissions@, snap0));
                        assert(spec_slashed_after(slashed_before, q_before, snap0)
                            == spec_slashed_after(
                            self.currency.slashed,
                            self.signed_submissions@,
                            snap0,
                        ));
                    }
                },
            }
        }
        proof {
            if !found_solution {
                assert(self.signed_submissions@.len() == 0);
                assert(spec_finalize_trail(self.signed_submissions@, snap0)
                    =~= Seq::<RawEvent>::empty());
                assert(self.events@ =~= self.events@ + spec_finalize_trail(
                    self.signed_submissions@,
                    snap0,
                ));
                assert(self.events@ == ev0 + spec_finalize_trail(q0, snap0));
                assert(self.currency.slashed == spec_slashed_after(slashed0, q0, snap0));
                assert forall|k: int|
                    0 <= k < q0.len() implies !spec_accepts(
                    snap0,
                    (#[trigger] q0[k]).solution,
                ) by {}
            }
        }
        while self.signed_submissions.len() > 0
            invariant
                self.wf(),
                self.current_phase == old(self).current_phase,
                self.round == old(self).round,
                self.snapshot == old(self).snapshot,
                self.config == old(self).config,
                self.ocw_head == old(self).ocw_head,
                self.events@ == ev0 + spec_finalize_trail(q0, snap0),
                self.currency.slashed == spec_slashed_after(slashed0, q0, snap0),
                !found_solution ==> self.queued_solution == old(self).queued_solution
                    && self.currency.rewarded == rewarded0,
                found_solution ==> {
                    &&& 0 <= k_star < q0.len()
                    &&& spec_accepts(snap0, q0[k_star].solution)
                    &&& forall|j: int|
                        k_star < j < q0.len() ==> !spec_accepts(
                            snap0,
                            (#[trigger] q0[j]).solution,
                        )
                    &&& (self.queued_solution matches Some(ready) && ready.compute
                        == ElectionCompute::Signed && ready.score == q0[k_star].solution.score
                        && crate::score::spec_evaluate(ready.supports@) == ready.score)
                    &&& self.currency.rewarded == sat_add_spec(rewarded0, q0[k_star].reward)
                },
            decreases self.signed_submissions@.len(),
        {
            let ghost q_before = self.signed_submissions@;
            let not_processed = match self.signed_submissions.pop() {
                Some(b) => b,
                None => {
                    break ;
                },
            };
            proof {
                assert(q_before.subrange(0, q_before.len() - 1) =~= q_before.remove(
                    q_before.len() - 1,
                ));
                lemma_reservations_remove(q_before, q_before.len() - 1);
                assert(spec_queue_reservations(q_before).count(
                    (not_processed.who, not_processed.deposit),
                ) > 0) by {
                    assert(q_before.map_values(
                        |s: SignedSubmission| (s.who, s.deposit),
                    )[q_before.len() - 1] == (not_processed.who, not_processed.deposit));
                    assert(q_before.map_values(|s: SignedSubmission| (s.who, s.deposit)).contains(
                        (not_processed.who, not_processed.deposit),
                    ));
                }
                assert(self.currency.reserved@.contains(
                    (not_processed.who, not_processed.deposit),
                ));
            }
            let _fully_released = self.currency.unreserve(not_processed.who, not_processed.deposit);
        }
        proof {
            assert(spec_queue_reservations(self.signed_submissions@).len() == 0);
            assert(self.currency.reserved@.to_multiset().len() == 0);
            if found_solution {
                assert(q0[k_star] == old(self).signed_submissions@[k_star]);
            }
        }
        found_solution
    }

    /// Submit a solution for the signed phase. Rejected outside the signed
    /// phase; rejected without any deposit movement when it improves on
    /// nothing and the queue is full; rejected, with the insertion
    /// reversed, when the submitter cannot pay the deposit. On acceptance
    /// the deposit is reserved, a full queue evicts its worst entry with
    /// its deposit refunded, and the solution waits for the end of the
    /// phase.
    #[verifier::rlimit(100)]
    pub fn submit(&mut self, who: AccountId, solution: RawSolution) -> (r: Result<
        (),
        PalletError,
    >)
        requires
            old(self).wf(),
            spec_raw_solution_wf(solution),
        ensures
            final(self).wf(),
            (r == Err::<(), PalletError>(PalletError::EarlySubmission)) <==> !(old(self).current_phase is Signed),
            (r == Err::<(), PalletError>(PalletError::QueueFull)) <==> (old(self).current_phase is Signed && old(self).signed_submissions@.len() >= old(self).config.max_signed_submissions && (forall|k: int|
                0 <= k < old(self).signed_submissions@.len() ==> !spec_is_score_better(
                    solution.score,
                    (#[trigger] old(self).signed_submissions@[k]).solution.score,
                    old(self).config.solution_improvement_threshold_parts,
                ))),
            (r == Err::<(), PalletError>(PalletError::CannotPayDeposit)) <==> (old(self).current_phase is Signed
                && !(old(self).signed_submissions@.len() >= old(self).config.max_signed_submissions
                    && (forall|k: int|
                        0 <= k < old(self).signed_submissions@.len() ==> !spec_is_score_better(
                            solution.score,
                            (#[trigger] old(self).signed_submissions@[k]).solution.score,
                            old(self).config.solution_improvement_threshold_parts,
                        ))) && !crate::currency::spec_can_pay(
                old(self).currency.free@,
                who,
                spec_deposit_for(old(self).config, solution),
            )),
            r is Ok <==> (old(self).current_phase is Signed && !(old(self).signed_submissions@.len() >= old(self).config.max_signed_submissions && (forall|
                k: int,
            |
                0 <= k < old(self).signed_submissions@.len() ==> !spec_is_score_better(
                    solution.score,
                    (#[trigger] old(self).signed_submissions@[k]).solution.score,
                    old(self).config.solution_improvement_threshold_parts,
                ))) && crate::currency::spec_can_pay(
                old(self).currency.free@,
                who,
                spec_deposit_for(old(self).config, solution),
            )),
            r is Ok ==> final(self).currency.slashed == old(self).currency.slashed && final(self).currency.rewarded == old(self).currency.rewarded,
            r is Err ==> spec_state_eq(*final(self), *old(self)),
            r is Ok ==> old(self).current_phase is Signed && final(self).events@ == old(self).events@.push(RawEvent::SolutionStored(ElectionCompute::Signed)) && final(self).current_phase == old(self).current_phase && final(self).round == old(self).round
                && final(self).snapshot == old(self).snapshot && final(self).queued_solution
                == old(self).queued_solution && final(self).ocw_head == old(self).ocw_head
                && final(self).config == old(self).config,
            r is Ok ==> exists|at: int|
                #![trigger old(self).signed_submissions@.insert(at, spec_new_submission(old(self).config, who, solution))]
                {
                    &&& 0 <= at <= old(self).signed_submissions@.len()
                    &&& at > 0 ==> spec_is_score_better(
                        solution.score,
                        old(self).signed_submissions@[at - 1].solution.score,
                        old(self).config.solution_improvement_threshold_parts,
                    )
                    &&& forall|k: int|
                        at <= k < old(self).signed_submissions@.len() ==> !spec_is_score_better(
                            solution.score,
                            (#[trigger] old(self).signed_submissions@[k]).solution.score,
                            old(self).config.solution_improvement_threshold_parts,
                        )
                    &&& if old(self).signed_submissions@.len() < old(self).config.max_signed_submissions {
                        final(self).signed_submissions@ == old(self).signed_submissions@.insert(
                            at,
                            spec_new_submission(old(self).config, who, solution),
                        ) && final(self).currency.free@ == crate::currency::spec_debit(
                            old(self).currency.free@,
                            who,
                            spec_deposit_for(old(self).config, solution),
                        ) && final(self).currency.reserved@ == old(self).currency.reserved@.push(
                            (who, spec_deposit_for(old(self).config, solution)),
                        )
                    } else {
                        at >= 1 && final(self).signed_submissions@ == old(self).signed_submissions@.insert(
                            at,
                            spec_new_submission(old(self).config, who, solution),
                        ).remove(0) && final(self).currency.free@ == crate::currency::spec_credit(
                            crate::currency::spec_debit(
                                old(self).currency.free@,
                                who,
                                spec_deposit_for(old(self).config, solution),
                            ),
                            old(self).signed_submissions@[0].who,
                            old(self).signed_submissions@[0].deposit,
                        ) && final(self).currency.reserved@.to_multiset() == old(self).currency.reserved@.to_multiset().insert(
                            (who, spec_deposit_for(old(self).config, solution)),
                        ).remove(
                            (
                                old(self).signed_submissions@[0].who,
                                old(self).signed_submissions@[0].deposit,
                            ),
                        )
                    }
                },
    {
        if !self.current_phase.is_signed() {
            return Err(PalletError::EarlySubmission);
        }
        let ghost q0 = self.signed_submissions@;
        let ghost t = self.config.solution_improvement_threshold_parts;
        let ghost sub = spec_new_submission(self.config, who, solution);
        let deposit = deposit_for_config(&self.config, &solution);
        let outcome = Module::insert_submission(
            &self.config,
            who,
            &mut self.signed_submissions,
            solution,
        );
        let (index, evicted) = match outcome {
            Some(x) => x,
            None => {
                return Err(PalletError::QueueFull);
            },
        };
        let ghost at = choose|at: int|
            #![trigger q0.insert(at, sub)]
            {
                &&& 0 <= at <= q0.len()
                &&& at > 0 ==> spec_is_score_better(solution.score, q0[at - 1].solution.score, t)
                &&& forall|k: int|
                    at <= k < q0.len() ==> !spec_is_score_better(
                        solution.score,
                        (#[trigger] q0[k]).solution.score,
                        t,
                    )
                &&& if q0.len() < self.config.max_signed_submissions {
                    evicted is None && index == at && self.signed_submissions@ == q0.insert(
                        at,
                        sub,
                    )
                } else {
                    at >= 1 && evicted == Some(q0[0]) && index == at - 1
                        && self.signed_submissions@ == q0.insert(at, sub).remove(0)
                }
            };
        let paid = self.currency.reserve(who, deposit);
        if !paid {
            // Reverse the insertion: the submitter cannot pay the deposit.
            self.signed_submissions.remove(index);
            match evicted {
                Some(ev) => {
                    self.signed_submissions.insert(0, ev);
                    proof {
                        assert(q0.insert(at, sub).remove(0).remove(at - 1) =~= q0.remove(0));
                        assert(q0.remove(0).insert(0, q0[0]) =~= q0);
                    }
                },
                None => {
                    proof {
                        assert(q0.insert(at, sub).remove(at) =~= q0);
                    }
                },
            }
            proof {
                assert(spec_state_eq(*final(self), *old(self)));
            }
            return Err(PalletError::CannotPayDeposit);
        }
        proof {
            lemma_reservations_insert(q0, at, sub);
        }
        match evicted {
            Some(ev) => {
                proof {
                    lemma_reservations_remove(q0.insert(at, sub), 0);
                    assert(q0.insert(at, sub)[0] == q0[0]);
                    assert(spec_queue_reservations(q0).count((q0[0].who, q0[0].deposit)) > 0)
                        by {
                        assert(q0.map_values(|s: SignedSubmission| (s.who, s.deposit))[0] == (
                            q0[0].who,
                            q0[0].deposit,
                        ));
                        assert(q0.map_values(|s: SignedSubmission| (s.who, s.deposit)).contains(
                            (q0[0].who, q0[0].deposit),
                        ));
                    }
                    assert(self.currency.reserved@.contains((ev.who, ev.deposit))) by {
                        assert(self.currency.reserved@.to_multiset().count((ev.who, ev.deposit))
                            > 0);
                    }
                }
                let _fully_released = self.currency.unreserve(ev.who, ev.deposit);
            },
            None => {},
        }
        self.events.push(RawEvent::SolutionStored(ElectionCompute::Signed));
        Ok(())
    }
}

/// The queue bound as an exec value.
fn queue_bound(config: &Config) -> (r: usize)
    ensures
        r == config.max_signed_submissions,
{
    config.max_signed_submissions as usize
}

/// The deposit formula, as a free helper over the configuration.
fn deposit_for_config(config: &Config, solution: &RawSolution) -> (r: Balance)
    requires
        spec_raw_solution_wf(*solution),
    ensures
        r == spec_deposit_for(*config, *solution),
{
    let encoded = encode_raw_solution(solution);
    let len_deposit = sat_mul(config.signed_deposit_byte, encoded.len() as u128);
    let weight_deposit = sat_mul(
        config.signed_deposit_weight,
        config.feasibility_check_weight as u128,
    );
    sat_add(config.signed_deposit_base, sat_add(len_deposit, weight_deposit))
}

/// The reward formula, as a free helper over the configuration.
fn reward_for_config(config: &Config, solution: &RawSolution) -> (r: Balance)
    requires
        spec_config_wf(*config),
    ensures
        r == spec_reward_for(*config, *solution),
{
    let factor_part = parts_mul_floor(
        solution.score.minimal_stake,
        config.signed_reward_factor_parts,
    );
    let uncapped = sat_add(config.signed_reward_base, factor_part);
    match config.signed_reward_max {
        Some(m) => if uncapped > m {
            m
        } else {
            uncapped
        },
        None => uncapped,
    }
}

} // verus!
