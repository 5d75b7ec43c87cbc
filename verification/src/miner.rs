//! The miner: computes a candidate solution from the snapshot, trims it to
//! the block-weight budget, and re-scores what remains.

use vstd::prelude::*;
use crate::types::{
    AccountId, ElectionError, ElectionResult, ElectionScore, FeasibilityError, VoteWeight, Weight,
    WitnessData,
};
use crate::compact::{
    spec_assignments_match, spec_target_indices_valid, spec_unique_targets,
    spec_voter_indices_valid, CompactSolution, RawSolution,
};
use crate::external::{
    phragmen_of, ratio_norm_of, ratio_to_staked_normalized, reduce_of, reduce_solution,
    seq_phragmen_call, staked_norm_of, staked_to_ratio_normalized,
};
use crate::feasibility::{
    build_supports, lemma_unique_targets_membership, spec_supports_match, spec_winner_accounts,
};
use crate::pallet::Module;
use crate::score::{evaluate_supports, spec_evaluate};
use crate::snapshot::spec_first_index;
use crate::unsigned::Call;
use vstd::multiset::Multiset;

verus! {

broadcast use vstd::seq_lib::group_to_multiset_ensures;

/// The host's weight model, implemented by its user: how much block weight
/// an unsigned submission of the given dimensions consumes.
pub trait WeightInfo {
    /// The declared weight of an unsigned submission with the given total
    /// voter and target counts, active voter count, and desired winners.
    spec fn submit_unsigned_weight(
        &self,
        voters: u32,
        targets: u32,
        active_voters: u32,
        desired_winners: u32,
    ) -> Weight;

    /// Compute the declared weight.
    fn submit_unsigned(
        &self,
        voters: u32,
        targets: u32,
        active_voters: u32,
        desired_winners: u32,
    ) -> (r: Weight)
        ensures
            r == self.submit_unsigned_weight(voters, targets, active_voters, desired_winners),
    ;
}

/// The weight model is monotone non-decreasing in the active voters.
pub open spec fn spec_weight_monotone<W: WeightInfo>(
    w: W,
    voters: u32,
    targets: u32,
    desired_winners: u32,
) -> bool {
    forall|a1: u32, a2: u32|
        #![trigger w.submit_unsigned_weight(voters, targets, a1, desired_winners), w.submit_unsigned_weight(voters, targets, a2, desired_winners)]
        a1 <= a2 ==> w.submit_unsigned_weight(voters, targets, a1, desired_winners)
            <= w.submit_unsigned_weight(voters, targets, a2, desired_winners)
}

/// A weight model linear in the number of active voters.
#[derive(Clone, Copy, PartialEq, Eq, Structural, Debug)]
pub struct LinearWeights {
    /// Fixed weight of any submission.
    pub base: Weight,
    /// Weight added per active voter.
    pub per_active_voter: Weight,
}

/// `a + b` on weights, saturating.
pub open spec fn sat_add64_spec(a: u64, b: u64) -> u64 {
    if a + b > u64::MAX {
        u64::MAX
    } else {
        (a + b) as u64
    }
}

/// `a * b` on weights, saturating.
pub open spec fn sat_mul64_spec(a: u64, b: u64) -> u64 {
    if a * b > u64::MAX {
        u64::MAX
    } else {
        (a * b) as u64
    }
}

impl WeightInfo for LinearWeights {
    open spec fn submit_unsigned_weight(
        &self,
        voters: u32,
        targets: u32,
        active_voters: u32,
        desired_winners: u32,
    ) -> Weight {
        sat_add64_spec(self.base, sat_mul64_spec(self.per_active_voter, active_voters as u64))
    }

    fn submit_unsigned(
        &self,
        voters: u32,
        targets: u32,
        active_voters: u32,
        desired_winners: u32,
    ) -> (r: Weight) {
        let per = self.per_active_voter;
        let active = active_voters as u64;
        let product: u64 = if per == 0 {
            0
        } else if active > u64::MAX / per {
            proof {
                assert(active * per > u64::MAX) by (nonlinear_arith)
                    requires
                        per > 0,
                        active > u64::MAX / per,
                        u64::MAX / per == u64::MAX as int / per as int,
                {
                    vstd::arithmetic::div_mod::lemma_fundamental_div_mod(
                        u64::MAX as int,
                        per as int,
                    );
                }
            }
            u64::MAX
        } else {
            proof {
                assert(active * per <= u64::MAX) by (nonlinear_arith)
                    requires
                        per > 0,
                        active <= u64::MAX / per,
                        u64::MAX / per == u64::MAX as int / per as int,
                {
                    vstd::arithmetic::div_mod::lemma_fundamental_div_mod(
                        u64::MAX as int,
                        per as int,
                    );
                }
            }
            per * active
        };
        if self.base > u64::MAX - product {
            u64::MAX
        } else {
            self.base + product
        }
    }
}

/// A linear weight model is monotone in the active voters.
pub proof fn lemma_linear_weights_monotone(
    w: LinearWeights,
    voters: u32,
    targets: u32,
    desired_winners: u32,
)
    ensures
        spec_weight_monotone(w, voters, targets, desired_winners),
{
    assert forall|a1: u32, a2: u32|
        #![trigger w.submit_unsigned_weight(voters, targets, a1, desired_winners), w.submit_unsigned_weight(voters, targets, a2, desired_winners)]
        a1 <= a2 implies w.submit_unsigned_weight(voters, targets, a1, desired_winners)
        <= w.submit_unsigned_weight(voters, targets, a2, desired_winners) by {
        assert(w.per_active_voter * a1 <= w.per_active_voter * a2) by (nonlinear_arith)
            requires
                a1 <= a2,
                w.per_active_voter >= 0,
        ;
    }
}

/// The four little-endian bytes that seed the balancing iteration count:
/// the head of the seed, zero padded.
pub open spec fn spec_seed_byte(seed: Seq<u8>, k: int) -> u8 {
    if k < seed.len() {
        seed[k]
    } else {
        0
    }
}

/// The iteration seed read from the head of the random seed.
pub open spec fn spec_seed_u32(seed: Seq<u8>) -> u32 {
    ((spec_seed_byte(seed, 0) as u32) | ((spec_seed_byte(seed, 1) as u32) << 8) | ((spec_seed_byte(
        seed,
        2,
    ) as u32) << 16) | ((spec_seed_byte(seed, 3) as u32) << 24)) as u32
}

/// The number of balancing rounds drawn from the seed: zero when no
/// balancing is configured, else the seed modulo one more than the bound.
pub open spec fn spec_balancing_iters(max_iterations: u32, seed: Seq<u8>) -> usize {
    if max_iterations == 0 {
        0
    } else {
        let bound = if max_iterations == u32::MAX {
            u32::MAX
        } else {
            (max_iterations + 1) as u32
        };
        (spec_seed_u32(seed) % bound) as usize
    }
}

/// The canonical ratio assignments that the miner's pipeline produces
/// from a Phragmen result over the snapshot: normalize to stakes, reduce,
/// normalize back to ratios.
pub open spec fn spec_pipeline_ratio(
    snap: crate::types::RoundSnapshot,
    assignments: Seq<crate::types::RatioAssignment>,
) -> Result<Vec<crate::types::RatioAssignment>, crate::types::NposError> {
    match staked_norm_of(
        crate::types::spec_ratio_views(assignments),
        crate::types::spec_voter_views(snap.voters@),
    ) {
        Ok(st) => ratio_norm_of(
            crate::types::spec_backed_views(
                reduce_of(crate::types::spec_backed_views(st@))@,
            ),
        ),
        Err(e) => Err(e),
    }
}

/// Whether every account of the ratio assignments resolves against the
/// snapshot, so that they pack into compact form.
pub open spec fn spec_packable(
    snap: crate::types::RoundSnapshot,
    rat: Seq<crate::types::RatioAssignment>,
) -> bool {
    &&& forall|i: int|
        0 <= i < rat.len() ==> spec_first_index(
            crate::snapshot::spec_voter_keys(snap.voters@),
            (#[trigger] rat[i]).who,
        ) is Some
    &&& forall|i: int, j: int|
        0 <= i < rat.len() && 0 <= j < rat[i].distribution@.len() ==> spec_first_index(
            snap.targets@,
            (#[trigger] rat[i].distribution@[j]).0,
        ) is Some
}

/// The largest active-voter count not exceeding `v` whose declared weight
/// fits the budget, or zero when none does.
pub open spec fn spec_max_fit<W: WeightInfo>(
    w: W,
    voters: u32,
    targets: u32,
    desired_winners: u32,
    v: int,
    max_weight: Weight,
) -> u32
    decreases v,
{
    if v <= 0 {
        0
    } else if w.submit_unsigned_weight(voters, targets, v as u32, desired_winners)
        <= max_weight {
        v as u32
    } else {
        spec_max_fit(w, voters, targets, desired_winners, v - 1, max_weight)
    }
}

/// The weight-bounded voter count: the largest active-voter count within
/// the witness whose declared weight fits the budget.
pub open spec fn spec_max_compact_len<W: WeightInfo>(
    w: W,
    desired_winners: u32,
    witness: WitnessData,
    max_weight: Weight,
) -> u32 {
    if witness.voters == 0 {
        0
    } else {
        spec_max_fit(
            w,
            witness.voters,
            witness.targets,
            desired_winners,
            witness.voters as int,
            max_weight,
        )
    }
}

/// The downward scan lands exactly on `r` when everything above `r` is
/// over budget and `r` itself, if positive, is within it.
proof fn lemma_max_fit_scan<W: WeightInfo>(
    w: W,
    voters: u32,
    targets: u32,
    desired_winners: u32,
    v: int,
    max_weight: Weight,
    r: u32,
)
    requires
        r <= v <= u32::MAX,
        r > 0 ==> w.submit_unsigned_weight(voters, targets, r, desired_winners) <= max_weight,
        forall|u: u32|
            r < u <= v ==> w.submit_unsigned_weight(voters, targets, u, desired_winners)
                > max_weight,
    ensures
        spec_max_fit(w, voters, targets, desired_winners, v, max_weight) == r,
    decreases v,
{
    if v > 0 {
        if v > r {
            assert(w.submit_unsigned_weight(voters, targets, v as u32, desired_winners)
                > max_weight);
            lemma_max_fit_scan(w, voters, targets, desired_winners, v - 1, max_weight, r);
        }
    }
}

/// The content of ratio assignments packed against the snapshot: each
/// account replaced by its first index. Meaningful when every account
/// resolves.
pub open spec fn spec_pack_views(
    rat: Seq<(AccountId, Seq<(AccountId, u32)>)>,
    voterkeys: Seq<u64>,
    targets: Seq<AccountId>,
) -> Seq<(u32, Seq<(u16, u32)>)> {
    rat.map_values(
        |a: (AccountId, Seq<(AccountId, u32)>)|
            (
                spec_first_index(voterkeys, a.0).unwrap() as u32,
                a.1.map_values(
                    |e: (AccountId, u32)| (spec_first_index(targets, e.0).unwrap() as u16, e.1),
                ),
            ),
    )
}

/// A packed solution's content is the packed content of its assignments.
proof fn lemma_packed_views(
    a: Seq<crate::types::RatioAssignment>,
    voters: Seq<(AccountId, VoteWeight, Vec<AccountId>)>,
    targets: Seq<AccountId>,
    c: CompactSolution,
)
    requires
        crate::compact::spec_packed_match(a, voters, targets, c.votes@),
    ensures
        crate::codec::spec_view_compact(c) == spec_pack_views(
            crate::types::spec_ratio_views(a),
            crate::snapshot::spec_voter_keys(voters),
            targets,
        ),
{
    let rat = crate::types::spec_ratio_views(a);
    let keys = crate::snapshot::spec_voter_keys(voters);
    assert forall|i: int|
        0 <= i < c.votes@.len() implies #[trigger] crate::codec::spec_view_compact(c)[i]
        == spec_pack_views(rat, keys, targets)[i] by {
        assert(rat[i] == (a[i].who, a[i].distribution@));
        assert(spec_first_index(keys, a[i].who) == Some(c.votes@[i].0 as int));
        let inner = a[i].distribution@.map_values(
            |e: (AccountId, u32)| (spec_first_index(targets, e.0).unwrap() as u16, e.1),
        );
        assert forall|j: int|
            0 <= j < a[i].distribution@.len() implies #[trigger] inner[j]
            == c.votes@[i].1@[j] by {
            assert(spec_first_index(targets, a[i].distribution@[j].0) == Some(
                c.votes@[i].1@[j].0 as int,
            ));
        }
        assert(inner =~= c.votes@[i].1@);
    }
    assert(crate::codec::spec_view_compact(c) =~= spec_pack_views(rat, keys, targets));
}

/// Everything a successful mining run pins: the witness, the round, the
/// canonical score, and the solution's exact content as a function of the
/// snapshot, the weight model, the budget and the balancing count.
pub open spec fn spec_mined_solution<W: WeightInfo>(
    w: W,
    snap: crate::types::RoundSnapshot,
    round: u32,
    max_weight: Weight,
    iters: usize,
    rs: RawSolution,
    wit: WitnessData,
) -> bool {
    &&& wit == (WitnessData {
        voters: snap.voters@.len() as u32,
        targets: snap.targets@.len() as u32,
    })
    &&& rs.round == round
    &&& crate::feasibility::spec_compact_score(snap, rs.compact.votes@) == Some(rs.score)
    &&& match phragmen_of(
        snap.desired_targets as int,
        snap.targets@,
        crate::types::spec_voter_views(snap.voters@),
        Some(iters),
    ) {
        Ok(res) => match spec_pipeline_ratio(snap, res.assignments@) {
            Ok(rat) => crate::codec::spec_view_compact(rs.compact) == spec_trim_views(
                spec_pack_views(
                    crate::types::spec_ratio_views(rat@),
                    crate::snapshot::spec_voter_keys(snap.voters@),
                    snap.targets@,
                ),
                spec_selection_sort(spec_stakes(snap.voters@)),
                crate::snapshot::spec_voter_keys(snap.voters@),
                (if rat@.len() <= spec_max_compact_len(
                    w,
                    snap.desired_targets,
                    WitnessData {
                        voters: snap.voters@.len() as u32,
                        targets: snap.targets@.len() as u32,
                    },
                    max_weight,
                ) {
                    0int
                } else {
                    rat@.len() - spec_max_compact_len(
                        w,
                        snap.desired_targets,
                        WitnessData {
                            voters: snap.voters@.len() as u32,
                            targets: snap.targets@.len() as u32,
                        },
                        max_weight,
                    )
                }) as nat,
            ),
            Err(_) => false,
        },
        Err(_) => false,
    }
}

/// Mining is deterministic: two successful runs over the same snapshot,
/// round, weight model, budget and balancing count agree on the witness,
/// the round, the score, and the solution's bytes.
pub proof fn lemma_mine_solution_deterministic<W: WeightInfo>(
    w: W,
    snap: crate::types::RoundSnapshot,
    round: u32,
    max_weight: Weight,
    iters: usize,
    rs1: RawSolution,
    wit1: WitnessData,
    rs2: RawSolution,
    wit2: WitnessData,
)
    requires
        spec_mined_solution(w, snap, round, max_weight, iters, rs1, wit1),
        spec_mined_solution(w, snap, round, max_weight, iters, rs2, wit2),
    ensures
        wit1 == wit2,
        rs1.round == rs2.round,
        rs1.score == rs2.score,
        crate::codec::spec_enc_raw_solution(rs1) == crate::codec::spec_enc_raw_solution(rs2),
{
    match phragmen_of(
        snap.desired_targets as int,
        snap.targets@,
        crate::types::spec_voter_views(snap.voters@),
        Some(iters),
    ) {
        Ok(res) => {
            match spec_pipeline_ratio(snap, res.assignments@) {
                Ok(rat) => {
                    assert(crate::codec::spec_view_compact(rs1.compact)
                        == crate::codec::spec_view_compact(rs2.compact));
                    assert(crate::codec::spec_view_compact(rs1.compact).len()
                        == rs1.compact.votes@.len());
                    assert(crate::codec::spec_view_compact(rs2.compact).len()
                        == rs2.compact.votes@.len());
                    assert(rs1.compact.votes@.len() == rs2.compact.votes@.len());
                    assert forall|i: int|
                        0 <= i < rs1.compact.votes@.len() implies (
                    #[trigger] rs1.compact.votes@[i]).0 == rs2.compact.votes@[i].0
                        && rs1.compact.votes@[i].1@ == rs2.compact.votes@[i].1@ by {
                        assert(crate::codec::spec_view_compact(rs1.compact)[i] == (
                            rs1.compact.votes@[i].0,
                            rs1.compact.votes@[i].1@,
                        ));
                        assert(crate::codec::spec_view_compact(rs2.compact)[i] == (
                            rs2.compact.votes@[i].0,
                            rs2.compact.votes@[i].1@,
                        ));
                    }
                    crate::feasibility::lemma_compact_score_by_views(
                        snap,
                        rs1.compact.votes@,
                        rs2.compact.votes@,
                    );
                },
                Err(_) => {},
            }
        },
        Err(_) => {},
    }
}

impl Module {
    /// Draw a number of balancing iterations from the off-chain random
    /// seed, at most `max_iterations`.
    pub fn get_balancing_iters(max_iterations: u32, seed: &Vec<u8>) -> (r: usize)
        ensures
            r == spec_balancing_iters(max_iterations, seed@),
            r <= max_iterations,
    {
        if max_iterations == 0 {
            return 0;
        }
        let b0: u8 = if seed.len() > 0 {
            seed[0]
        } else {
            0
        };
        let b1: u8 = if seed.len() > 1 {
            seed[1]
        } else {
            0
        };
        let b2: u8 = if seed.len() > 2 {
            seed[2]
        } else {
            0
        };
        let b3: u8 = if seed.len() > 3 {
            seed[3]
        } else {
            0
        };
        let x: u32 = (b0 as u32) | ((b1 as u32) << 8u32) | ((b2 as u32) << 16u32) | ((b3 as u32)
            << 24u32);
        let bound: u32 = if max_iterations == u32::MAX {
            u32::MAX
        } else {
            max_iterations + 1
        };
        (x % bound) as usize
    }

    /// Find the largest number of active voters whose declared submission
    /// weight fits the block budget: a halving search from the voter
    /// count, then a linear adjustment for rounding. The result is clamped
    /// to the witness's voter count; an empty witness yields zero.
    #[verifier::loop_isolation(false)]
    pub fn maximum_compact_len<W: WeightInfo>(
        w: &W,
        desired_winners: u32,
        witness: WitnessData,
        max_weight: Weight,
    ) -> (r: u32)
        requires
            spec_weight_monotone(*w, witness.voters, witness.targets, desired_winners),
        ensures
            r <= witness.voters,
            witness.voters == 0 ==> r == 0,
            (witness.voters > 0 && w.submit_unsigned_weight(
                witness.voters,
                witness.targets,
                0,
                desired_winners,
            ) <= max_weight) ==> w.submit_unsigned_weight(
                witness.voters,
                witness.targets,
                r,
                desired_winners,
            ) <= max_weight && (r == witness.voters || w.submit_unsigned_weight(
                witness.voters,
                witness.targets,
                (r + 1) as u32,
                desired_winners,
            ) > max_weight),
            (witness.voters > 0 && w.submit_unsigned_weight(
                witness.voters,
                witness.targets,
                0,
                desired_winners,
            ) > max_weight) ==> r == 0,
            r == spec_max_compact_len(*w, desired_winners, witness, max_weight),
    {
        if witness.voters < 1 {
            return witness.voters;
        }
        let max_voters = witness.voters;
        let mut voters: u32 = max_voters;
        let mut step: u32 = voters / 2;
        while step > 0
            invariant
                voters <= max_voters,
            decreases step,
        {
            let current_weight = w.submit_unsigned(
                witness.voters,
                witness.targets,
                voters,
                desired_winners,
            );
            if current_weight < max_weight {
                if step <= max_voters - voters && voters + step < max_voters {
                    voters = voters + step;
                } else {
                    break ;
                }
            } else if current_weight > max_weight {
                if voters >= step {
                    voters = voters - step;
                } else {
                    break ;
                }
            } else {
                break ;
            }
            step = step / 2;
        }
        let ghost up0 = voters;
        while voters < max_voters && w.submit_unsigned(
            witness.voters,
            witness.targets,
            voters + 1,
            desired_winners,
        ) <= max_weight
            invariant
                up0 <= voters <= max_voters,
                voters > up0 ==> w.submit_unsigned_weight(
                    witness.voters,
                    witness.targets,
                    voters,
                    desired_winners,
                ) <= max_weight,
            decreases max_voters - voters,
        {
            voters = voters + 1;
        }
        let ghost down0 = voters;
        while voters >= 1 && w.submit_unsigned(
            witness.voters,
            witness.targets,
            voters,
            desired_winners,
        ) > max_weight
            invariant
                voters <= down0,
                voters < down0 ==> w.submit_unsigned_weight(
                    witness.voters,
                    witness.targets,
                    (voters + 1) as u32,
                    desired_winners,
                ) > max_weight,
            decreases voters,
        {
            voters = voters - 1;
        }
        proof {
            assert(voters <= witness.voters);
            assert(voters > 0 ==> w.submit_unsigned_weight(
                witness.voters,
                witness.targets,
                voters,
                desired_winners,
            ) <= max_weight);
            assert forall|u: u32|
                voters < u <= witness.voters implies w.submit_unsigned_weight(
                witness.voters,
                witness.targets,
                u,
                desired_winners,
            ) > max_weight by {
                assert(w.submit_unsigned_weight(
                    witness.voters,
                    witness.targets,
                    (voters + 1) as u32,
                    desired_winners,
                ) > max_weight);
                assert(w.submit_unsigned_weight(
                    witness.voters,
                    witness.targets,
                    (voters + 1) as u32,
                    desired_winners,
                ) <= w.submit_unsigned_weight(
                    witness.voters,
                    witness.targets,
                    u,
                    desired_winners,
                ));
            }
            lemma_max_fit_scan(
                *w,
                witness.voters,
                witness.targets,
                desired_winners,
                witness.voters as int,
                max_weight,
                voters,
            );
        }
        if voters < witness.voters {
            voters
        } else {
            witness.voters
        }
    }
}

/// The position of the first least-stake entry of a nonempty list.
pub open spec fn spec_min_stake_index(s: Seq<(AccountId, VoteWeight)>) -> int
    decreases s.len(),
{
    if s.len() <= 1 {
        0
    } else {
        let m = spec_min_stake_index(s.drop_last());
        if 0 <= m < s.len() && s.last().1 < s[m].1 {
            s.len() - 1
        } else {
            m
        }
    }
}

/// The first least-stake position is in range, attains the least stake,
/// and every earlier position holds a strictly larger stake.
pub proof fn lemma_min_stake_index_sound(s: Seq<(AccountId, VoteWeight)>)
    requires
        s.len() > 0,
    ensures
        0 <= spec_min_stake_index(s) < s.len(),
        forall|k: int|
            0 <= k < s.len() ==> s[spec_min_stake_index(s)].1 <= (#[trigger] s[k]).1,
        forall|k: int| 0 <= k < spec_min_stake_index(s) ==> (#[trigger] s[k]).1
            > s[spec_min_stake_index(s)].1,
    decreases s.len(),
{
    if s.len() > 1 {
        lemma_min_stake_index_sound(s.drop_last());
        assert(forall|k: int|
            0 <= k < s.len() - 1 ==> #[trigger] s[k] == s.drop_last()[k]);
    }
}

/// The position that attains the least stake with every earlier stake
/// strictly larger is the first least-stake position.
pub proof fn lemma_min_stake_index_characterization(s: Seq<(AccountId, VoteWeight)>, m: int)
    requires
        0 <= m < s.len(),
        forall|k: int| 0 <= k < s.len() ==> s[m].1 <= (#[trigger] s[k]).1,
        forall|k: int| 0 <= k < m ==> (#[trigger] s[k]).1 > s[m].1,
    ensures
        spec_min_stake_index(s) == m,
{
    lemma_min_stake_index_sound(s);
    let m0 = spec_min_stake_index(s);
    if m0 < m {
        assert(s[m0].1 > s[m].1);
        assert(s[m].1 <= s[m0].1);
        assert(false);
    }
    if m < m0 {
        assert(s[m].1 > s[m0].1);
        assert(s[m0].1 <= s[m].1);
        assert(false);
    }
}

/// The list reordered by repeatedly taking the first least-stake entry.
pub open spec fn spec_selection_sort(s: Seq<(AccountId, VoteWeight)>) -> Seq<
    (AccountId, VoteWeight),
>
    decreases s.len(),
{
    if s.len() == 0 {
        Seq::<(AccountId, VoteWeight)>::empty()
    } else {
        let m = spec_min_stake_index(s);
        if 0 <= m < s.len() {
            seq![s[m]] + spec_selection_sort(s.remove(m))
        } else {
            s
        }
    }
}

/// The (identifier, stake) pairs of the snapshot's voters, in order.
pub open spec fn spec_stakes(
    voters: Seq<(AccountId, VoteWeight, Vec<AccountId>)>,
) -> Seq<(AccountId, VoteWeight)> {
    voters.map_values(|v: (AccountId, VoteWeight, Vec<AccountId>)| (v.0, v.1))
}

/// The vote entries' content after trimming: walk the stake-ordered
/// voters and remove each one's entry, until the required number of
/// entries are gone or the voters are exhausted.
pub open spec fn spec_trim_views(
    votes: Seq<(u32, Seq<(u16, u32)>)>,
    sorted: Seq<(AccountId, VoteWeight)>,
    voterkeys: Seq<u64>,
    need: nat,
) -> Seq<(u32, Seq<(u16, u32)>)>
    decreases sorted.len(),
{
    if need == 0 || sorted.len() == 0 {
        votes
    } else {
        match spec_first_index(voterkeys, sorted[0].0) {
            Some(ix) => match spec_first_index(
                votes.map_values(|v: (u32, Seq<(u16, u32)>)| v.0 as u64),
                ix as u64,
            ) {
                Some(p) => spec_trim_views(
                    votes.remove(p),
                    sorted.drop_first(),
                    voterkeys,
                    (need - 1) as nat,
                ),
                None => spec_trim_views(votes, sorted.drop_first(), voterkeys, need),
            },
            None => votes,
        }
    }
}

/// Order stake-keyed voters by stake, non-decreasing, by selection of the
/// least remaining stake; the entries are kept, only reordered, and the
/// result is exactly the canonical selection order.
fn sort_by_stake(v: Vec<(AccountId, VoteWeight)>) -> (r: Vec<(AccountId, VoteWeight)>)
    ensures
        r@.len() == v@.len(),
        r@.to_multiset() == v@.to_multiset(),
        forall|i: int, j: int| 0 <= i <= j < r@.len() ==> (#[trigger] r@[i]).1 <= (
        #[trigger] r@[j]).1,
        r@ == spec_selection_sort(v@),
{
    let mut rest = v;
    let mut out: Vec<(AccountId, VoteWeight)> = Vec::new();
    let ghost total = rest@.len();
    while rest.len() > 0
        invariant
            out@.len() + rest@.len() == total,
            out@.to_multiset().add(rest@.to_multiset()) == v@.to_multiset(),
            spec_selection_sort(v@) == out@ + spec_selection_sort(rest@),
            forall|i: int, j: int|
                0 <= i <= j < out@.len() ==> (#[trigger] out@[i]).1 <= (#[trigger] out@[j]).1,
            forall|i: int, j: int|
                0 <= i < out@.len() && 0 <= j < rest@.len() ==> (#[trigger] out@[i]).1 <= (
                #[trigger] rest@[j]).1,
        decreases rest@.len(),
    {
        let mut min_idx: usize = 0;
        let mut k: usize = 1;
        while k < rest.len()
            invariant
                min_idx < rest@.len(),
                k <= rest@.len(),
                rest@.len() > 0,
                forall|kk: int|
                    0 <= kk < k ==> rest@[min_idx as int].1 <= (#[trigger] rest@[kk]).1,
                min_idx < k || min_idx == 0,
                forall|kk: int|
                    0 <= kk < min_idx ==> (#[trigger] rest@[kk]).1 > rest@[min_idx as int].1,
            decreases rest@.len() - k,
        {
            if rest[k].1 < rest[min_idx].1 {
                min_idx = k;
            }
            k = k + 1;
        }
        let ghost rest_before = rest@;
        let ghost out_before = out@;
        proof {
            lemma_min_stake_index_characterization(rest@, min_idx as int);
        }
        let e = rest.remove(min_idx);
        out.push(e);
        proof {
            assert(spec_selection_sort(rest_before) == seq![rest_before[min_idx as int]]
                + spec_selection_sort(rest_before.remove(min_idx as int)));
            assert(out@ =~= out_before + seq![e]);
            assert(out_before + (seq![e] + spec_selection_sort(rest@)) =~= (out_before + seq![
                e,
            ]) + spec_selection_sort(rest@));
            assert(rest@.to_multiset() =~= rest_before.to_multiset().remove(e));
            assert(out@.to_multiset() =~= out_before.to_multiset().insert(e));
            assert(rest_before.to_multiset().count(e) > 0) by {
                assert(rest_before[min_idx as int] == e);
                assert(rest_before.contains(e));
            }
            assert(out@.to_multiset().add(rest@.to_multiset()) =~= v@.to_multiset());
            assert forall|i: int, j: int|
                0 <= i < out@.len() && 0 <= j < rest@.len() implies (#[trigger] out@[i]).1 <= (
            #[trigger] rest@[j]).1 by {
                if j < min_idx {
                    assert(rest@[j] == rest_before[j]);
                } else {
                    assert(rest@[j] == rest_before[j + 1]);
                }
                if i < out@.len() - 1 {
                    assert(out@[i] == out_before[i]);
                } else {
                    assert(out@[i] == e);
                    assert(e.1 == rest_before[min_idx as int].1);
                }
            }
        }
    }
    proof {
        assert(rest@.to_multiset() =~= Multiset::<(AccountId, VoteWeight)>::empty());
        assert(out@.to_multiset() =~= v@.to_multiset());
        assert(spec_selection_sort(rest@) =~= Seq::<(AccountId, VoteWeight)>::empty());
        assert(out@ =~= out@ + spec_selection_sort(rest@));
    }
    out
}

impl Module {
    /// Greedily reduce the size of a solution to fit the block weight:
    /// strip voters, least stake first, until at most
    /// `maximum_allowed_voters` remain. A solution already within the
    /// bound is returned unchanged; one whose indices all resolve, each
    /// once, is trimmed exactly to the bound. The score must be
    /// recomputed after this step. With a snapshot in place this never
    /// fails.
    #[verifier::loop_isolation(false)]
    #[verifier::rlimit(100)]
    pub fn trim_compact(&self, maximum_allowed_voters: u32, compact: CompactSolution) -> (r:
        Result<CompactSolution, ElectionError>)
        requires
            self.wf(),
        ensures
            compact.votes@.len() <= maximum_allowed_voters ==> r == Ok::<_, ElectionError>(
                compact,
            ),
            self.snapshot is Some ==> r is Ok,
            r matches Ok(c) ==> c.votes@.len() <= compact.votes@.len(),
            r matches Ok(c) ==> c.votes@.len() >= (if compact.votes@.len()
                <= maximum_allowed_voters {
                compact.votes@.len() as int
            } else {
                maximum_allowed_voters as int
            }),
            r matches Ok(c) ==> forall|p: int|
                0 <= p < c.votes@.len() ==> compact.votes@.contains(#[trigger] c.votes@[p]),
            self.snapshot matches Some(snap) ==> (spec_voter_indices_valid(
                compact.votes@,
                snap.voters@.len() as int,
            ) && crate::snapshot::spec_distinct_keys(crate::compact::spec_vote_keys(
                compact.votes@,
            ))) ==> (r matches Ok(c) && c.votes@.len() == (if compact.votes@.len()
                <= maximum_allowed_voters {
                compact.votes@.len() as int
            } else {
                maximum_allowed_voters as int
            }) && crate::codec::spec_view_compact(c) == spec_trim_views(
                crate::codec::spec_view_compact(compact),
                spec_selection_sort(spec_stakes(snap.voters@)),
                crate::snapshot::spec_voter_keys(snap.voters@),
                (if compact.votes@.len() <= maximum_allowed_voters {
                    0int
                } else {
                    compact.votes@.len() - maximum_allowed_voters
                }) as nat,
            ) && (forall|q: int, p: int|
                0 <= q < compact.votes@.len() && !c.votes@.contains(compact.votes@[q]) && 0 <= p
                    < c.votes@.len() ==> (self.snapshot matches Some(sn) ==> sn.voters@[(
                #[trigger] compact.votes@[q]).0 as int].1 <= sn.voters@[(
                #[trigger] c.votes@[p]).0 as int].1))),
    {
        if compact.votes.len() <= maximum_allowed_voters as usize {
            proof {
                assert forall|p: int|
                    0 <= p < compact.votes@.len() implies compact.votes@.contains(
                    #[trigger] compact.votes@[p],
                ) by {}
                match &self.snapshot {
                    Some(sn) => {
                        assert(crate::codec::spec_view_compact(compact) == spec_trim_views(
                            crate::codec::spec_view_compact(compact),
                            spec_selection_sort(spec_stakes(sn.voters@)),
                            crate::snapshot::spec_voter_keys(sn.voters@),
                            0nat,
                        ));
                    },
                    None => {},
                }
            }
            return Ok(compact);
        }
        proof {
            assert(compact.votes@.len() > maximum_allowed_voters);
        }
        let to_remove = compact.votes.len() - maximum_allowed_voters as usize;
        let snap = match &self.snapshot {
            Some(s) => s,
            None => {
                return Err(ElectionError::SnapshotUnAvailable);
            },
        };
        let ghost cond = spec_voter_indices_valid(compact.votes@, snap.voters@.len() as int)
            && crate::snapshot::spec_distinct_keys(crate::compact::spec_vote_keys(
            compact.votes@,
        ));
        let mut stakes: Vec<(AccountId, VoteWeight)> = Vec::new();
        let mut i: usize = 0;
        while i < snap.voters.len()
            invariant
                i <= snap.voters@.len(),
                stakes@.len() == i,
                forall|k: int|
                    0 <= k < i ==> #[trigger] stakes@[k] == (
                        snap.voters@[k].0,
                        snap.voters@[k].1,
                    ),
            decreases snap.voters@.len() - i,
        {
            stakes.push((snap.voters[i].0, snap.voters[i].1));
            i = i + 1;
        }
        proof {
            assert(stakes@ =~= spec_stakes(snap.voters@));
        }
        let sorted = sort_by_stake(stakes);
        proof {
            assert(sorted@.skip(0) =~= sorted@);
        }
        let mut trimmed = compact;
        let ghost bound = trimmed.votes@.len();
        let mut removed: usize = 0;
        let mut i: usize = 0;
        while i < sorted.len() && removed < to_remove
            invariant
                i <= sorted@.len(),
                removed <= to_remove,
                removed == bound - trimmed.votes@.len(),
                trimmed.votes@.len() <= bound,
                forall|p: int|
                    0 <= p < trimmed.votes@.len() ==> compact.votes@.contains(
                        #[trigger] trimmed.votes@[p],
                    ),
                cond ==> spec_voter_indices_valid(
                    trimmed.votes@,
                    snap.voters@.len() as int,
                ) && crate::snapshot::spec_distinct_keys(crate::compact::spec_vote_keys(
                    trimmed.votes@,
                )),
                cond ==> forall|p: int, j: int|
                    0 <= p < trimmed.votes@.len() && 0 <= j < i ==> match spec_first_index(
                        crate::snapshot::spec_voter_keys(snap.voters@),
                        (#[trigger] sorted@[j]).0,
                    ) {
                        Some(ix) => (#[trigger] trimmed.votes@[p]).0 != ix,
                        None => true,
                    },
                cond ==> forall|q: int|
                    0 <= q < compact.votes@.len() && (forall|j: int|
                        0 <= j < i ==> match spec_first_index(
                            crate::snapshot::spec_voter_keys(snap.voters@),
                            (#[trigger] sorted@[j]).0,
                        ) {
                            Some(ix) => compact.votes@[q].0 != ix,
                            None => true,
                        }) ==> trimmed.votes@.contains(#[trigger] compact.votes@[q]),
                cond ==> spec_trim_views(
                    crate::codec::spec_view_compact(compact),
                    sorted@,
                    crate::snapshot::spec_voter_keys(snap.voters@),
                    to_remove as nat,
                ) == spec_trim_views(
                    crate::codec::spec_view_compact(trimmed),
                    sorted@.skip(i as int),
                    crate::snapshot::spec_voter_keys(snap.voters@),
                    (to_remove - removed) as nat,
                ),
            decreases sorted@.len() - i,
        {
            let who = sorted[i].0;
            let index = match crate::snapshot::voter_index(&snap.voters, who) {
                Some(idx) => idx,
                None => {
                    proof {
                        assert(sorted@.contains(sorted@[i as int]));
                        assert(stakes@.to_multiset().count(sorted@[i as int]) > 0);
                        assert(stakes@.contains(sorted@[i as int]));
                        let m = choose|m: int|
                            0 <= m < stakes@.len() && #[trigger] stakes@[m] == sorted@[i as int];
                        assert(crate::snapshot::spec_voter_keys(snap.voters@)[m] == who);
                        crate::snapshot::lemma_first_index_sound(
                            crate::snapshot::spec_voter_keys(snap.voters@),
                            who,
                        );
                        assert(false);
                    }
                    return Err(ElectionError::SnapshotUnAvailable);
                },
            };
            let ghost before = trimmed.votes@;
            let ghost before_vec = trimmed.votes;
            proof {
                crate::snapshot::lemma_first_index_sound(
                    crate::compact::spec_vote_keys(before),
                    index as u64,
                );
            }
            if trimmed.remove_voter(index) {
                removed = removed + 1;
            }
            proof {
                let keys_b = crate::compact::spec_vote_keys(before);
                assert forall|p: int|
                    0 <= p < trimmed.votes@.len() implies compact.votes@.contains(
                    #[trigger] trimmed.votes@[p],
                ) by {
                    match spec_first_index(keys_b, index as u64) {
                        Some(pos) => {
                            if p < pos {
                                assert(trimmed.votes@[p] == before[p]);
                            } else {
                                assert(trimmed.votes@[p] == before[p + 1]);
                            }
                        },
                        None => {
                            assert(trimmed.votes@[p] == before[p]);
                        },
                    }
                }
                if cond {
                    assert forall|p1: int, p2: int|
                        0 <= p1 < p2 < trimmed.votes@.len() implies crate::compact::spec_vote_keys(
                        trimmed.votes@,
                    )[p1] != crate::compact::spec_vote_keys(trimmed.votes@)[p2] by {
                        match spec_first_index(keys_b, index as u64) {
                            Some(pos) => {
                                let b1: int = if p1 < pos {
                                    p1
                                } else {
                                    p1 + 1
                                };
                                let b2: int = if p2 < pos {
                                    p2
                                } else {
                                    p2 + 1
                                };
                                assert(trimmed.votes@[p1] == before[b1]);
                                assert(trimmed.votes@[p2] == before[b2]);
                                assert(keys_b[b1] != keys_b[b2]);
                            },
                            None => {},
                        }
                    }
                    assert forall|p: int|
                        0 <= p < trimmed.votes@.len() implies ((
                    #[trigger] trimmed.votes@[p]).0 as int) < snap.voters@.len() by {
                        match spec_first_index(keys_b, index as u64) {
                            Some(pos) => {
                                if p < pos {
                                    assert(trimmed.votes@[p] == before[p]);
                                } else {
                                    assert(trimmed.votes@[p] == before[p + 1]);
                                }
                            },
                            None => {
                                assert(trimmed.votes@[p] == before[p]);
                            },
                        }
                    }
                    assert forall|p: int, j: int|
                        0 <= p < trimmed.votes@.len() && 0 <= j < i + 1 implies match spec_first_index(
                        crate::snapshot::spec_voter_keys(snap.voters@),
                        (#[trigger] sorted@[j]).0,
                    ) {
                        Some(ix) => (#[trigger] trimmed.votes@[p]).0 != ix,
                        None => true,
                    } by {
                        let b0: int = match spec_first_index(keys_b, index as u64) {
                            Some(pos) => if p < pos {
                                p
                            } else {
                                p + 1
                            },
                            None => p,
                        };
                        assert(trimmed.votes@[p] == before[b0]);
                        if j < i {
                            assert(before[b0] == trimmed.votes@[p]);
                        } else {
                            match spec_first_index(
                                crate::snapshot::spec_voter_keys(snap.voters@),
                                sorted@[j].0,
                            ) {
                                Some(ix) => {
                                    assert(ix == index as int);
                                    match spec_first_index(keys_b, index as u64) {
                                        Some(pos) => {
                                            if trimmed.votes@[p].0 as int == ix {
                                                let b: int = if p < pos {
                                                    p
                                                } else {
                                                    p + 1
                                                };
                                                assert(trimmed.votes@[p] == before[b]);
                                                assert(b != pos);
                                                assert(keys_b[b] == index as u64);
                                                assert(keys_b[pos] == index as u64);
                                                assert(false);
                                            }
                                        },
                                        None => {
                                            assert(keys_b[b0] != index as u64);
                                        },
                                    }
                                },
                                None => {},
                            }
                        }
                    }
                    assert(spec_trim_views(
                        crate::codec::spec_view_compact(compact),
                        sorted@,
                        crate::snapshot::spec_voter_keys(snap.voters@),
                        to_remove as nat,
                    ) == spec_trim_views(
                        crate::codec::spec_view_compact(trimmed),
                        sorted@.skip(i + 1),
                        crate::snapshot::spec_voter_keys(snap.voters@),
                        (to_remove - removed) as nat,
                    )) by {
                        let voterkeys = crate::snapshot::spec_voter_keys(snap.voters@);
                        let suffix = sorted@.skip(i as int);
                        assert(suffix[0] == sorted@[i as int]);
                        assert(suffix.drop_first() =~= sorted@.skip(i + 1));
                        let bviews = crate::codec::spec_view_compact(
                            CompactSolution { votes: before_vec },
                        );
                        assert(spec_first_index(voterkeys, suffix[0].0) == Some(index as int));
                        assert(bviews.map_values(|v: (u32, Seq<(u16, u32)>)| v.0 as u64)
                            =~= keys_b);
                        match spec_first_index(keys_b, index as u64) {
                            Some(pos) => {
                                assert(crate::codec::spec_view_compact(trimmed)
                                    =~= bviews.remove(pos));
                            },
                            None => {
                                assert(crate::codec::spec_view_compact(trimmed) =~= bviews);
                            },
                        }
                    }
                    assert forall|q: int|
                        0 <= q < compact.votes@.len() && (forall|j: int|
                            0 <= j < i + 1 ==> match spec_first_index(
                                crate::snapshot::spec_voter_keys(snap.voters@),
                                (#[trigger] sorted@[j]).0,
                            ) {
                                Some(ix) => compact.votes@[q].0 != ix,
                                None => true,
                            }) implies trimmed.votes@.contains(
                        #[trigger] compact.votes@[q],
                    ) by {
                        assert(before.contains(compact.votes@[q]));
                        let m = choose|m: int|
                            0 <= m < before.len() && #[trigger] before[m] == compact.votes@[q];
                        match spec_first_index(keys_b, index as u64) {
                            Some(pos) => {
                                assert(match spec_first_index(
                                    crate::snapshot::spec_voter_keys(snap.voters@),
                                    sorted@[i as int].0,
                                ) {
                                    Some(ix) => compact.votes@[q].0 != ix,
                                    None => true,
                                });
                                assert(compact.votes@[q].0 != index);
                                assert(keys_b[pos] == index as u64);
                                assert(before[pos].0 == index);
                                assert(m != pos);
                                if m < pos {
                                    assert(trimmed.votes@[m] == before[m]);
                                } else {
                                    assert(trimmed.votes@[m - 1] == before[m]);
                                }
                            },
                            None => {
                                assert(trimmed.votes@[m] == before[m]);
                            },
                        }
                    }
                }
            }
            i = i + 1;
        }
        proof {
            if cond && removed < to_remove {
                assert(i == sorted@.len());
                if trimmed.votes@.len() > 0 {
                    let e = trimmed.votes@[0];
                    assert(e.0 < snap.voters@.len());
                    let who0 = snap.voters@[e.0 as int].0;
                    assert(stakes@[e.0 as int] == (who0, snap.voters@[e.0 as int].1));
                    assert(stakes@.contains((who0, snap.voters@[e.0 as int].1)));
                    assert(stakes@.to_multiset().count((who0, snap.voters@[e.0 as int].1)) > 0);
                    assert(sorted@.to_multiset().count((who0, snap.voters@[e.0 as int].1)) > 0);
                    assert(sorted@.contains((who0, snap.voters@[e.0 as int].1)));
                    let j = choose|j: int|
                        0 <= j < sorted@.len() && #[trigger] sorted@[j] == (
                            who0,
                            snap.voters@[e.0 as int].1,
                        );
                    crate::snapshot::lemma_first_index_of_distinct(
                        crate::snapshot::spec_voter_keys(snap.voters@),
                        e.0 as int,
                    );
                    assert(spec_first_index(
                        crate::snapshot::spec_voter_keys(snap.voters@),
                        who0,
                    ) == Some(e.0 as int));
                    assert(sorted@[j].0 == who0);
                    assert(false);
                }
            }
            if cond {
                let voterkeys = crate::snapshot::spec_voter_keys(snap.voters@);
                assert forall|q: int, p: int|
                    0 <= q < compact.votes@.len() && !trimmed.votes@.contains(
                    compact.votes@[q],
                ) && 0 <= p < trimmed.votes@.len() implies snap.voters@[(
                #[trigger] compact.votes@[q]).0 as int].1 <= snap.voters@[(
                #[trigger] trimmed.votes@[p]).0 as int].1 by {
                    assert(!(forall|j: int|
                        0 <= j < i ==> match spec_first_index(
                            voterkeys,
                            (#[trigger] sorted@[j]).0,
                        ) {
                            Some(ix) => compact.votes@[q].0 != ix,
                            None => true,
                        }));
                    let jr = choose|j: int|
                        0 <= j < i && !(match spec_first_index(
                            voterkeys,
                            (#[trigger] sorted@[j]).0,
                        ) {
                            Some(ix) => compact.votes@[q].0 != ix,
                            None => true,
                        });
                    let e0 = compact.votes@[q].0 as int;
                    crate::snapshot::lemma_first_index_sound(voterkeys, sorted@[jr].0);
                    assert(voterkeys[e0] == sorted@[jr].0);
                    assert(sorted@.contains(sorted@[jr]));
                    assert(stakes@.to_multiset().count(sorted@[jr]) > 0);
                    assert(stakes@.contains(sorted@[jr]));
                    let m = choose|m: int|
                        0 <= m < stakes@.len() && #[trigger] stakes@[m] == sorted@[jr];
                    assert(voterkeys[m] == sorted@[jr].0);
                    assert(m == e0);
                    assert(sorted@[jr].1 == snap.voters@[e0].1);
                    let k0 = trimmed.votes@[p].0 as int;
                    assert(stakes@[k0] == (snap.voters@[k0].0, snap.voters@[k0].1));
                    assert(stakes@.contains(stakes@[k0]));
                    assert(sorted@.to_multiset().count(stakes@[k0]) > 0);
                    assert(sorted@.contains(stakes@[k0]));
                    let jk = choose|j: int|
                        0 <= j < sorted@.len() && #[trigger] sorted@[j] == stakes@[k0];
                    if jk < i {
                        crate::snapshot::lemma_first_index_of_distinct(voterkeys, k0);
                        assert(false);
                    }
                    assert(sorted@[jr].1 <= sorted@[jk].1);
                    assert(sorted@[jk].1 == snap.voters@[k0].1);
                }
                assert(spec_trim_views(
                    crate::codec::spec_view_compact(trimmed),
                    sorted@.skip(i as int),
                    crate::snapshot::spec_voter_keys(snap.voters@),
                    (to_remove - removed) as nat,
                ) == crate::codec::spec_view_compact(trimmed)) by {
                    if removed == to_remove {
                    } else {
                        assert(i == sorted@.len());
                        assert(sorted@.skip(i as int).len() == 0);
                    }
                }
            }
        }
        Ok(trimmed)
    }

    /// Re-score a compact solution against the snapshot: expand it,
    /// convert to normalized stakes, regroup target-major and evaluate.
    /// Succeeds exactly when every index resolves and the stakes
    /// normalize, and then returns the canonical score.
    #[verifier::loop_isolation(false)]
    fn compute_score(
        snap: &crate::types::RoundSnapshot,
        compact: &CompactSolution,
    ) -> (r: Result<ElectionScore, ElectionError>)
        ensures
            r is Ok <==> spec_voter_indices_valid(compact.votes@, snap.voters@.len() as int)
                && spec_target_indices_valid(compact.votes@, snap.targets@.len() as int)
                && crate::feasibility::spec_canonical_staked(*snap, compact.votes@) is Ok,
            r matches Ok(score) ==> crate::feasibility::spec_compact_score(*snap, compact.votes@)
                == Some(score),
            r matches Err(e) ==> match e {
                ElectionError::Feasibility(fe) => (fe == FeasibilityError::InvalidVoter
                    && !spec_voter_indices_valid(compact.votes@, snap.voters@.len() as int)) || (fe
                    == FeasibilityError::InvalidWinner && spec_voter_indices_valid(
                    compact.votes@,
                    snap.voters@.len() as int,
                ) && !spec_target_indices_valid(compact.votes@, snap.targets@.len() as int)),
                ElectionError::NposElections(ne) => spec_voter_indices_valid(
                    compact.votes@,
                    snap.voters@.len() as int,
                ) && spec_target_indices_valid(compact.votes@, snap.targets@.len() as int)
                    && crate::feasibility::spec_canonical_staked(*snap, compact.votes@) == Err::<
                    Vec<crate::types::BackedAssignment>,
                    _,
                >(ne),
                _ => false,
            },
    {
        let assignments = match compact.into_assignment(&snap.voters, &snap.targets) {
            Ok(a) => a,
            Err(e) => {
                return Err(ElectionError::Feasibility(e));
            },
        };
        let winners_idx = compact.unique_targets();
        let ghost votes = compact.votes@;
        let mut winner_accounts: Vec<AccountId> = Vec::new();
        let mut i: usize = 0;
        while i < winners_idx.len()
            invariant
                i <= winners_idx@.len(),
                winner_accounts@.len() == i,
                forall|k: int|
                    0 <= k < i ==> #[trigger] winner_accounts@[k] == snap.targets@[winners_idx@[k] as int],
            decreases winners_idx@.len() - i,
        {
            let t = winners_idx[i];
            proof {
                assert(spec_unique_targets(votes).contains(t));
                lemma_unique_targets_membership(votes, t);
            }
            winner_accounts.push(snap.targets[t as usize]);
            i = i + 1;
        }
        proof {
            assert(winner_accounts@ =~= spec_winner_accounts(votes, snap.targets@));
        }
        let staked = match ratio_to_staked_normalized(&assignments, &snap.voters) {
            Ok(s) => s,
            Err(ne) => {
                proof {
                    crate::feasibility::lemma_assignments_match_views(
                        votes,
                        snap.voters@,
                        snap.targets@,
                        assignments@,
                    );
                    assert(crate::feasibility::spec_canonical_staked(*snap, votes) == Err::<
                        Vec<crate::types::BackedAssignment>,
                        _,
                    >(ne));
                }
                return Err(ElectionError::NposElections(ne));
            },
        };
        let supports = build_supports(&winner_accounts, &staked);
        let score = evaluate_supports(&supports);
        proof {
            crate::feasibility::lemma_assignments_match_views(
                votes,
                snap.voters@,
                snap.targets@,
                assignments@,
            );
            assert(crate::feasibility::spec_canonical_staked(*snap, votes) == Ok::<
                _,
                crate::types::NposError,
            >(staked));
            assert forall|i: int|
                0 <= i < supports@.len() implies (#[trigger] supports@[i]).1.total
                == crate::feasibility::spec_totals_for(
                spec_winner_accounts(votes, snap.targets@),
                staked@,
            )[i] by {
                assert(crate::feasibility::spec_totals_for(
                    spec_winner_accounts(votes, snap.targets@),
                    staked@,
                )[i] == crate::feasibility::spec_total_of(
                    crate::feasibility::spec_backers_for(
                        staked@,
                        spec_winner_accounts(votes, snap.targets@)[i],
                    ),
                ));
            }
            crate::feasibility::lemma_evaluate_by_totals(
                supports@,
                crate::feasibility::spec_totals_for(
                    spec_winner_accounts(votes, snap.targets@),
                    staked@,
                ),
            );
            assert(crate::feasibility::spec_compact_score(*snap, votes) == Some(score));
        }
        Ok(score)
    }

    /// Convert a Phragmen result into a submittable raw solution: convert
    /// to normalized stakes, reduce, convert back to ratios, pack into
    /// compact form, trim to the weight budget, and re-score what remains.
    /// Each failing step yields its own error; when every step goes
    /// through and no trimming is needed, success is owed.
    #[verifier::rlimit(100)]
    pub fn prepare_election_result<W: WeightInfo>(
        &self,
        w: &W,
        election_result: ElectionResult,
    ) -> (r: Result<(RawSolution, WitnessData), ElectionError>)
        requires
            self.wf(),
            crate::snapshot::spec_distinct_keys(crate::types::spec_ratio_whos(
                election_result.assignments@,
            )),
            match self.snapshot {
                Some(s) => spec_weight_monotone(
                    *w,
                    s.voters@.len() as u32,
                    s.targets@.len() as u32,
                    s.desired_targets,
                ),
                None => true,
            },
        ensures
            self.snapshot is None <==> r == Err::<(RawSolution, WitnessData), _>(
                ElectionError::SnapshotUnAvailable,
            ),
            self.snapshot matches Some(snap) ==> spec_pipeline_ratio(
                snap,
                election_result.assignments@,
            ) matches Err(ne) ==> r == Err::<(RawSolution, WitnessData), _>(
                ElectionError::NposElections(ne),
            ),
            self.snapshot matches Some(snap) ==> spec_pipeline_ratio(
                snap,
                election_result.assignments@,
            ) matches Ok(rat) ==> !spec_packable(snap, rat@) ==> r == Err::<
                (RawSolution, WitnessData),
                _,
            >(ElectionError::NposElections(crate::types::NposError::SolutionInvalidIndex)),
            self.snapshot matches Some(snap) ==> spec_pipeline_ratio(
                snap,
                election_result.assignments@,
            ) matches Ok(rat) ==> (spec_packable(snap, rat@)
                && election_result.assignments@.len() <= snap.voters@.len()
                && w.submit_unsigned_weight(
                snap.voters@.len() as u32,
                snap.targets@.len() as u32,
                snap.voters@.len() as u32,
                snap.desired_targets,
            ) <= self.config.miner_max_weight && staked_norm_of(
                crate::types::spec_ratio_views(rat@),
                crate::types::spec_voter_views(snap.voters@),
            ) is Ok) ==> r is Ok,
            self.snapshot matches Some(snap) ==> spec_pipeline_ratio(
                snap,
                election_result.assignments@,
            ) matches Ok(rat) ==> r matches Ok((rs, wit))
                ==> crate::codec::spec_view_compact(rs.compact) == spec_trim_views(
                spec_pack_views(
                    crate::types::spec_ratio_views(rat@),
                    crate::snapshot::spec_voter_keys(snap.voters@),
                    snap.targets@,
                ),
                spec_selection_sort(spec_stakes(snap.voters@)),
                crate::snapshot::spec_voter_keys(snap.voters@),
                (if rat@.len() <= spec_max_compact_len(
                    *w,
                    snap.desired_targets,
                    WitnessData {
                        voters: snap.voters@.len() as u32,
                        targets: snap.targets@.len() as u32,
                    },
                    self.config.miner_max_weight,
                ) {
                    0int
                } else {
                    rat@.len() - spec_max_compact_len(
                        *w,
                        snap.desired_targets,
                        WitnessData {
                            voters: snap.voters@.len() as u32,
                            targets: snap.targets@.len() as u32,
                        },
                        self.config.miner_max_weight,
                    )
                }) as nat,
            ),
            match r {
                Ok((rs, wit)) => self.snapshot matches Some(snap) && {
                    &&& wit.voters == snap.voters@.len()
                    &&& wit.targets == snap.targets@.len()
                    &&& rs.round == self.round
                    &&& rs.compact.votes@.len() <= election_result.assignments@.len()
                    &&& crate::feasibility::spec_compact_score(snap, rs.compact.votes@)
                        == Some(rs.score)
                    &&& (w.submit_unsigned_weight(
                        snap.voters@.len() as u32,
                        snap.targets@.len() as u32,
                        0,
                        snap.desired_targets,
                    ) <= self.config.miner_max_weight ==> w.submit_unsigned_weight(
                        snap.voters@.len() as u32,
                        snap.targets@.len() as u32,
                        rs.compact.votes@.len() as u32,
                        snap.desired_targets,
                    ) <= self.config.miner_max_weight)
                    &&& ((election_result.assignments@.len() <= u32::MAX && (forall|i: int|
                        0 <= i < election_result.assignments@.len() ==> (
                        #[trigger] election_result.assignments@[i]).distribution@.len()
                            <= u32::MAX)) ==> crate::codec::spec_compact_wf(rs.compact))
                },
                Err(_) => true,
            },
    {
        let snap = match &self.snapshot {
            Some(s) => s,
            None => {
                return Err(ElectionError::SnapshotUnAvailable);
            },
        };
        let staked = match ratio_to_staked_normalized(&election_result.assignments, &snap.voters) {
            Ok(s) => s,
            Err(ne) => {
                return Err(ElectionError::NposElections(ne));
            },
        };
        proof {
            assert forall|i: int, j: int|
                0 <= i < j < crate::types::spec_backed_whos(staked@).len() implies #[trigger] crate::types::spec_backed_whos(staked@)[i] != #[trigger] crate::types::spec_backed_whos(
                staked@,
            )[j] by {
                assert(staked@[i].who == election_result.assignments@[i].who);
                assert(staked@[j].who == election_result.assignments@[j].who);
                assert(crate::types::spec_ratio_whos(election_result.assignments@)[i]
                    != crate::types::spec_ratio_whos(election_result.assignments@)[j]);
            }
        }
        let reduced = reduce_solution(&staked);
        let ratio = match staked_to_ratio_normalized(&reduced) {
            Ok(a) => a,
            Err(ne) => {
                return Err(ElectionError::NposElections(ne));
            },
        };
        proof {
            assert(spec_pipeline_ratio(*snap, election_result.assignments@) == Ok::<
                _,
                crate::types::NposError,
            >(ratio));
        }
        let compact = match CompactSolution::from_assignment(&ratio, &snap.voters, &snap.targets) {
            Ok(c) => c,
            Err(ne) => {
                proof {
                    assert(!spec_packable(*snap, ratio@));
                }
                return Err(ElectionError::NposElections(ne));
            },
        };
        proof {
            crate::feasibility::lemma_packed_expand(
                ratio@,
                snap.voters@,
                snap.targets@,
                compact.votes@,
            );
            assert(spec_packable(*snap, ratio@)) by {
                assert forall|i: int|
                    0 <= i < ratio@.len() implies spec_first_index(
                    crate::snapshot::spec_voter_keys(snap.voters@),
                    (#[trigger] ratio@[i]).who,
                ) is Some by {}
            }
            assert forall|i1: int, i2: int|
                0 <= i1 < i2 < crate::compact::spec_vote_keys(compact.votes@).len() implies #[trigger] crate::compact::spec_vote_keys(compact.votes@)[i1]
                != #[trigger] crate::compact::spec_vote_keys(compact.votes@)[i2] by {
                crate::snapshot::lemma_first_index_sound(
                    crate::snapshot::spec_voter_keys(snap.voters@),
                    ratio@[i1].who,
                );
                crate::snapshot::lemma_first_index_sound(
                    crate::snapshot::spec_voter_keys(snap.voters@),
                    ratio@[i2].who,
                );
                if compact.votes@[i1].0 == compact.votes@[i2].0 {
                    assert(ratio@[i1].who == ratio@[i2].who);
                    assert(staked@[i1].who == ratio@[i1].who && staked@[i2].who
                        == ratio@[i2].who);
                    assert(crate::types::spec_ratio_whos(election_result.assignments@)[i1]
                        != crate::types::spec_ratio_whos(election_result.assignments@)[i2]);
                    assert(false);
                }
            }
        }
        let witness = WitnessData {
            voters: snap.voters.len() as u32,
            targets: snap.targets.len() as u32,
        };
        let maximum_allowed_voters = Module::maximum_compact_len(
            w,
            snap.desired_targets,
            witness,
            self.config.miner_max_weight,
        );
        let ghost compact0 = compact;
        let compact = match self.trim_compact(maximum_allowed_voters, compact) {
            Ok(c) => c,
            Err(e) => {
                return Err(e);
            },
        };
        proof {
            assert(witness.voters == snap.voters@.len() as u32);
            assert(witness.targets == snap.targets@.len() as u32);
            assert(spec_weight_monotone(*w, witness.voters, witness.targets, snap.desired_targets));
            if w.submit_unsigned_weight(
                witness.voters,
                witness.targets,
                witness.voters,
                snap.desired_targets,
            ) <= self.config.miner_max_weight {
                if witness.voters > 0 {
                    assert(w.submit_unsigned_weight(
                        witness.voters,
                        witness.targets,
                        0u32,
                        snap.desired_targets,
                    ) <= w.submit_unsigned_weight(
                        witness.voters,
                        witness.targets,
                        witness.voters,
                        snap.desired_targets,
                    ));
                    if maximum_allowed_voters < witness.voters {
                        assert(w.submit_unsigned_weight(
                            witness.voters,
                            witness.targets,
                            (maximum_allowed_voters + 1) as u32,
                            snap.desired_targets,
                        ) <= w.submit_unsigned_weight(
                            witness.voters,
                            witness.targets,
                            witness.voters,
                            snap.desired_targets,
                        ));
                        assert(false);
                    }
                }
                assert(maximum_allowed_voters == witness.voters);
            }
        }
        let score = match Module::compute_score(snap, &compact) {
            Ok(s) => s,
            Err(e) => {
                proof {
                    if compact0.votes@.len() <= maximum_allowed_voters {
                        assert(compact == compact0);
                        assert(staked_norm_of(
                            crate::types::spec_ratio_views(ratio@),
                            crate::types::spec_voter_views(snap.voters@),
                        ) == crate::feasibility::spec_canonical_staked(
                            *snap,
                            compact0.votes@,
                        ));
                    }
                }
                return Err(e);
            },
        };
        proof {
            if compact0.votes@.len() <= maximum_allowed_voters {
                assert(compact == compact0);
            }
            assert(spec_weight_monotone(*w, witness.voters, witness.targets, snap.desired_targets));
            if w.submit_unsigned_weight(
                witness.voters,
                witness.targets,
                0u32,
                snap.desired_targets,
            ) <= self.config.miner_max_weight {
                assert(compact.votes@.len() <= maximum_allowed_voters);
                assert(w.submit_unsigned_weight(
                    witness.voters,
                    witness.targets,
                    maximum_allowed_voters,
                    snap.desired_targets,
                ) <= self.config.miner_max_weight);
                assert(w.submit_unsigned_weight(
                    witness.voters,
                    witness.targets,
                    compact.votes@.len() as u32,
                    snap.desired_targets,
                ) <= w.submit_unsigned_weight(
                    witness.voters,
                    witness.targets,
                    maximum_allowed_voters,
                    snap.desired_targets,
                ));
            }
            if election_result.assignments@.len() <= u32::MAX && (forall|i: int|
                0 <= i < election_result.assignments@.len() ==> (
                #[trigger] election_result.assignments@[i]).distribution@.len() <= u32::MAX) {
                assert forall|p: int|
                    0 <= p < compact.votes@.len() implies (
                #[trigger] compact.votes@[p]).1@.len() <= u32::MAX by {
                    assert(compact0.votes@.contains(compact.votes@[p]));
                    let q = choose|q: int|
                        0 <= q < compact0.votes@.len() && #[trigger] compact0.votes@[q]
                            == compact.votes@[p];
                    assert(compact0.votes@[q].1@.len() == ratio@[q].distribution@.len());
                    assert(ratio@[q].distribution@.len()
                        <= reduced@[q].distribution@.len());
                    assert(reduced@[q].distribution@.len()
                        <= staked@[q].distribution@.len());
                    assert(staked@[q].distribution@.len()
                        <= election_result.assignments@[q].distribution@.len());
                }
                assert(crate::codec::spec_compact_wf(compact));
            }
        }
        proof {
            lemma_packed_views(ratio@, snap.voters@, snap.targets@, compact0);
            assert(witness == (WitnessData {
                voters: snap.voters@.len() as u32,
                targets: snap.targets@.len() as u32,
            }));
            assert(maximum_allowed_voters == spec_max_compact_len(
                *w,
                snap.desired_targets,
                witness,
                self.config.miner_max_weight,
            ));
            assert(compact0.votes@.len() == ratio@.len());
        }
        let round = self.round;
        Ok((RawSolution { compact, score, round }, witness))
    }

    /// Mine a new solution: run sequential Phragmen on the snapshot with
    /// the given number of balancing iterations, then prepare the result
    /// for submission.
    pub fn mine_solution<W: WeightInfo>(&self, w: &W, iters: usize) -> (r: Result<
        (RawSolution, WitnessData),
        ElectionError,
    >)
        requires
            self.wf(),
            match self.snapshot {
                Some(s) => spec_weight_monotone(
                    *w,
                    s.voters@.len() as u32,
                    s.targets@.len() as u32,
                    s.desired_targets,
                ),
                None => true,
            },
        ensures
            self.snapshot is None <==> r == Err::<(RawSolution, WitnessData), _>(
                ElectionError::SnapshotUnAvailable,
            ),
            self.snapshot matches Some(snap) ==> phragmen_of(
                snap.desired_targets as int,
                snap.targets@,
                crate::types::spec_voter_views(snap.voters@),
                Some(iters),
            ) matches Err(ne) ==> r == Err::<(RawSolution, WitnessData), _>(
                ElectionError::NposElections(ne),
            ),
            self.snapshot matches Some(snap) ==> phragmen_of(
                snap.desired_targets as int,
                snap.targets@,
                crate::types::spec_voter_views(snap.voters@),
                Some(iters),
            ) matches Ok(res) ==> spec_pipeline_ratio(snap, res.assignments@) matches Ok(rat)
                ==> (spec_packable(snap, rat@) && w.submit_unsigned_weight(
                snap.voters@.len() as u32,
                snap.targets@.len() as u32,
                snap.voters@.len() as u32,
                snap.desired_targets,
            ) <= self.config.miner_max_weight && staked_norm_of(
                crate::types::spec_ratio_views(rat@),
                crate::types::spec_voter_views(snap.voters@),
            ) is Ok) ==> r is Ok,
            match r {
                Ok((rs, wit)) => self.snapshot matches Some(snap) && {
                    &&& wit.voters == snap.voters@.len()
                    &&& wit.targets == snap.targets@.len()
                    &&& rs.round == self.round
                    &&& phragmen_of(
                        snap.desired_targets as int,
                        snap.targets@,
                        crate::types::spec_voter_views(snap.voters@),
                        Some(iters),
                    ) is Ok
                    &&& crate::feasibility::spec_compact_score(snap, rs.compact.votes@)
                        == Some(rs.score)
                    &&& crate::codec::spec_compact_wf(rs.compact)
                    &&& (w.submit_unsigned_weight(
                        snap.voters@.len() as u32,
                        snap.targets@.len() as u32,
                        0,
                        snap.desired_targets,
                    ) <= self.config.miner_max_weight ==> w.submit_unsigned_weight(
                        snap.voters@.len() as u32,
                        snap.targets@.len() as u32,
                        rs.compact.votes@.len() as u32,
                        snap.desired_targets,
                    ) <= self.config.miner_max_weight)
                    &&& spec_mined_solution(
                        *w,
                        snap,
                        self.round,
                        self.config.miner_max_weight,
                        iters,
                        rs,
                        wit,
                    )
                },
                Err(_) => true,
            },
    {
        let snap = match &self.snapshot {
            Some(s) => s,
            None => {
                return Err(ElectionError::SnapshotUnAvailable);
            },
        };
        let result = match seq_phragmen_call(
            snap.desired_targets as usize,
            &snap.targets,
            &snap.voters,
            Some(iters),
        ) {
            Ok(res) => res,
            Err(ne) => {
                return Err(ElectionError::NposElections(ne));
            },
        };
        proof {
            assert(crate::snapshot::spec_distinct_keys(crate::snapshot::spec_voter_keys(
                snap.voters@,
            )));
            assert(crate::snapshot::spec_distinct_keys(crate::types::spec_ratio_whos(
                result.assignments@,
            )));
        }
        let r = self.prepare_election_result(w, result);
        proof {
            if r is Ok {
                assert(result.assignments@.len() <= snap.voters@.len());
                assert(snap.voters@.len() <= u32::MAX);
                assert forall|i: int|
                    0 <= i < result.assignments@.len() implies (
                #[trigger] result.assignments@[i]).distribution@.len() <= u32::MAX by {
                    assert(result.assignments@[i].distribution@.len() <= snap.targets@.len());
                }
            }
        }
        r
    }

    /// Mine a solution and wrap it as the unsigned call that the host
    /// should hand to its transaction pool.
    pub fn mine_and_submit<W: WeightInfo>(&self, w: &W, seed: &Vec<u8>) -> (r: Result<
        Call,
        ElectionError,
    >)
        requires
            self.wf(),
            match self.snapshot {
                Some(s) => spec_weight_monotone(
                    *w,
                    s.voters@.len() as u32,
                    s.targets@.len() as u32,
                    s.desired_targets,
                ),
                None => true,
            },
        ensures
            match r {
                Ok(call) => call matches Call::submit_unsigned(rs, wit) && rs.round == self.round
                    && crate::codec::spec_compact_wf(rs.compact) && (self.snapshot matches Some(
                    snap,
                ) && crate::feasibility::spec_compact_score(snap, rs.compact.votes@) == Some(
                    rs.score,
                ) && spec_mined_solution(
                    *w,
                    snap,
                    self.round,
                    self.config.miner_max_weight,
                    spec_balancing_iters(self.config.miner_max_iterations, seed@),
                    rs,
                    wit,
                )),
                Err(_) => true,
            },
            self.snapshot matches Some(snap) ==> phragmen_of(
                snap.desired_targets as int,
                snap.targets@,
                crate::types::spec_voter_views(snap.voters@),
                Some(spec_balancing_iters(self.config.miner_max_iterations, seed@)),
            ) matches Ok(res) ==> spec_pipeline_ratio(snap, res.assignments@) matches Ok(rat)
                ==> (spec_packable(snap, rat@) && w.submit_unsigned_weight(
                snap.voters@.len() as u32,
                snap.targets@.len() as u32,
                snap.voters@.len() as u32,
                snap.desired_targets,
            ) <= self.config.miner_max_weight && staked_norm_of(
                crate::types::spec_ratio_views(rat@),
                crate::types::spec_voter_views(snap.voters@),
            ) is Ok) ==> r is Ok,
    {
        let balancing = Module::get_balancing_iters(self.config.miner_max_iterations, seed);
        match self.mine_solution(w, balancing) {
            Ok((raw_solution, witness)) => Ok(Call::submit_unsigned(raw_solution, witness)),
            Err(e) => Err(e),
        }
    }

    /// The per-block off-chain hook: mine and return an unsigned call for
    /// the pool, but only when the re-run guard admits this block and the
    /// unsigned phase is open exactly at it. Errors are surfaced for the
    /// host to log; they never abort anything.
    pub fn offchain_worker<W: WeightInfo>(
        &mut self,
        w: &W,
        now: crate::types::BlockNumber,
        seed: &Vec<u8>,
    ) -> (r: Option<Call>)
        requires
            old(self).wf(),
            match old(self).snapshot {
                Some(s) => spec_weight_monotone(
                    *w,
                    s.voters@.len() as u32,
                    s.targets@.len() as u32,
                    s.desired_targets,
                ),
                None => true,
            },
        ensures
            final(self).wf(),
            r is Some ==> old(self).current_phase == crate::types::Phase::Unsigned(true, now),
            r is Some ==> (old(self).ocw_head is None || (old(self).ocw_head matches Some(h)
                && now > h + crate::unsigned::OFFCHAIN_REPEAT)),
            final(self).ocw_head == (match old(self).ocw_head {
                None => Some(now),
                Some(h) => if now >= h && now > h + crate::unsigned::OFFCHAIN_REPEAT {
                    Some(now)
                } else {
                    old(self).ocw_head
                },
            }),
            r matches Some(call) ==> call matches Call::submit_unsigned(rs, wit) && rs.round
                == old(self).round && (old(self).snapshot matches Some(snap)
                && spec_mined_solution(
                *w,
                snap,
                old(self).round,
                old(self).config.miner_max_weight,
                spec_balancing_iters(old(self).config.miner_max_iterations, seed@),
                rs,
                wit,
            )),
            (match old(self).ocw_head {
                None => true,
                Some(h) => now > h + crate::unsigned::OFFCHAIN_REPEAT,
            } && old(self).current_phase == crate::types::Phase::Unsigned(true, now) && (old(
                self,
            ).snapshot matches Some(snap) && (phragmen_of(
                snap.desired_targets as int,
                snap.targets@,
                crate::types::spec_voter_views(snap.voters@),
                Some(spec_balancing_iters(old(self).config.miner_max_iterations, seed@)),
            ) matches Ok(res) && (spec_pipeline_ratio(snap, res.assignments@) matches Ok(rat)
                && spec_packable(snap, rat@) && w.submit_unsigned_weight(
                snap.voters@.len() as u32,
                snap.targets@.len() as u32,
                snap.voters@.len() as u32,
                snap.desired_targets,
            ) <= old(self).config.miner_max_weight && staked_norm_of(
                crate::types::spec_ratio_views(rat@),
                crate::types::spec_voter_views(snap.voters@),
            ) is Ok)))) ==> r is Some,
            final(self).current_phase == old(self).current_phase,
            final(self).round == old(self).round,
            final(self).signed_submissions == old(self).signed_submissions,
            final(self).queued_solution == old(self).queued_solution,
            final(self).snapshot == old(self).snapshot,
            final(self).currency == old(self).currency,
            final(self).events == old(self).events,
    {
        let allowed = self.set_check_offchain_execution_status(now);
        if allowed.is_ok() && self.current_phase.is_unsigned_open_at(now) {
            match self.mine_and_submit(w, seed) {
                Ok(call) => Some(call),
                Err(_) => None,
            }
        } else {
            None
        }
    }
}

} // verus!
