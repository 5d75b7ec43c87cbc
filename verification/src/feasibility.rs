//! The feasibility checker: validates that a claimed solution is consistent
//! with the snapshot and that its claimed score is exactly the score of the
//! supports it induces.

use vstd::prelude::*;
use crate::types::{
    AccountId, RatioAssignment, ElectionCompute, ExtendedBalance, FeasibilityError, ReadySolution,
    RoundSnapshot, BackedAssignment, Support, VoteWeight, spec_ratio_views, spec_voter_views,
};
use crate::compact::{
    spec_assignments_match, spec_insert_unique, spec_target_indices_valid, spec_unique_of_edges,
    spec_unique_targets, spec_voter_indices_valid, CompactSolution, RawSolution,
};
use crate::score::{evaluate_supports, sat_add, sat_add_spec, spec_evaluate};
use crate::external::{ratio_to_staked_normalized, staked_norm_of};

verus! {

/// The backers that one staked assignment contributes to `target`: one
/// entry per edge to `target`, in edge order.
pub open spec fn spec_edges_to(who: u64, dist: Seq<(u64, u128)>, target: u64) -> Seq<(u64, u128)>
    decreases dist.len(),
{
    if dist.len() == 0 {
        Seq::<(u64, u128)>::empty()
    } else {
        let rest = spec_edges_to(who, dist.drop_last(), target);
        if dist.last().0 == target {
            rest.push((who, dist.last().1))
        } else {
            rest
        }
    }
}

/// All backers of `target` across the staked assignments, in assignment
/// order and edge order.
pub open spec fn spec_backers_for(staked: Seq<BackedAssignment>, target: u64) -> Seq<(u64, u128)>
    decreases staked.len(),
{
    if staked.len() == 0 {
        Seq::<(u64, u128)>::empty()
    } else {
        spec_backers_for(staked.drop_last(), target) + spec_edges_to(
            staked.last().who,
            staked.last().distribution@,
            target,
        )
    }
}

/// The saturating sum of the stakes of a backer list.
pub open spec fn spec_total_of(backers: Seq<(u64, u128)>) -> u128
    decreases backers.len(),
{
    if backers.len() == 0 {
        0
    } else {
        sat_add_spec(spec_total_of(backers.drop_last()), backers.last().1)
    }
}

/// Whether `supports` is exactly the target-major regrouping of `staked`
/// along the winner list `winners`.
pub open spec fn spec_supports_match(
    winners: Seq<u64>,
    staked: Seq<BackedAssignment>,
    supports: Seq<(u64, Support)>,
) -> bool {
    &&& supports.len() == winners.len()
    &&& forall|i: int| 0 <= i < winners.len() ==> (#[trigger] supports[i]).0 == winners[i]
    &&& forall|i: int|
        0 <= i < winners.len() ==> (#[trigger] supports[i]).1.voters@ == spec_backers_for(
            staked,
            winners[i],
        )
    &&& forall|i: int|
        0 <= i < winners.len() ==> (#[trigger] supports[i]).1.total == spec_total_of(
            spec_backers_for(staked, winners[i]),
        )
}

/// Build the target-major supports of `staked` along the winner list.
pub fn build_supports(winners: &Vec<AccountId>, staked: &Vec<BackedAssignment>) -> (r: Vec<
    (AccountId, Support),
>)
    ensures
        spec_supports_match(winners@, staked@, r@),
{
    let mut out: Vec<(AccountId, Support)> = Vec::new();
    let mut i: usize = 0;
    while i < winners.len()
        invariant
            i <= winners@.len(),
            out@.len() == i,
            forall|k: int| 0 <= k < i ==> (#[trigger] out@[k]).0 == winners@[k],
            forall|k: int|
                0 <= k < i ==> (#[trigger] out@[k]).1.voters@ == spec_backers_for(
                    staked@,
                    winners@[k],
                ),
            forall|k: int|
                0 <= k < i ==> (#[trigger] out@[k]).1.total == spec_total_of(
                    spec_backers_for(staked@, winners@[k]),
                ),
        decreases winners@.len() - i,
    {
        let w = winners[i];
        let mut voters: Vec<(AccountId, ExtendedBalance)> = Vec::new();
        let mut total: u128 = 0;
        let mut k: usize = 0;
        while k < staked.len()
            invariant
                k <= staked@.len(),
                voters@ == spec_backers_for(staked@.take(k as int), w),
                total == spec_total_of(voters@),
            decreases staked@.len() - k,
        {
            let sa = &staked[k];
            let ghost before = voters@;
            let mut j: usize = 0;
            while j < sa.distribution.len()
                invariant
                    j <= sa.distribution@.len(),
                    k < staked@.len(),
                    sa.distribution@ == staked@[k as int].distribution@,
                    sa.who == staked@[k as int].who,
                    voters@ == before + spec_edges_to(sa.who, sa.distribution@.take(j as int), w),
                    total == spec_total_of(voters@),
                decreases sa.distribution@.len() - j,
            {
                let (c, stake) = sa.distribution[j];
                proof {
                    assert(sa.distribution@.take(j + 1).drop_last() =~= sa.distribution@.take(
                        j as int,
                    ));
                    assert(sa.distribution@.take(j + 1).last() == sa.distribution@[j as int]);
                }
                if c == w {
                    voters.push((sa.who, stake));
                    total = sat_add(total, stake);
                    proof {
                        assert(voters@.drop_last() =~= before + spec_edges_to(
                            sa.who,
                            sa.distribution@.take(j as int),
                            w,
                        ));
                    }
                }
                j = j + 1;
            }
            proof {
                assert(sa.distribution@.take(sa.distribution@.len() as int)
                    =~= sa.distribution@);
                assert(staked@.take(k + 1).drop_last() =~= staked@.take(k as int));
                assert(staked@.take(k + 1).last() == staked@[k as int]);
            }
            k = k + 1;
        }
        proof {
            assert(staked@.take(staked@.len() as int) =~= staked@);
        }
        out.push((w, Support { total, voters }));
        i = i + 1;
    }
    out
}

/// Every backer contributed by one assignment's edges is that
/// assignment's own voter.
pub proof fn lemma_edges_to_whos(who: u64, dist: Seq<(u64, u128)>, target: u64)
    ensures
        forall|j: int|
            0 <= j < spec_edges_to(who, dist, target).len() ==> (
            #[trigger] spec_edges_to(who, dist, target)[j]).0 == who,
    decreases dist.len(),
{
    if dist.len() > 0 {
        lemma_edges_to_whos(who, dist.drop_last(), target);
        let rest = spec_edges_to(who, dist.drop_last(), target);
        assert forall|j: int|
            0 <= j < spec_edges_to(who, dist, target).len() implies (
        #[trigger] spec_edges_to(who, dist, target)[j]).0 == who by {
            if j < rest.len() {
                assert(spec_edges_to(who, dist, target)[j] == rest[j]);
            }
        }
    }
}

/// Every backer of a target is one of the staked assignments' voters.
pub proof fn lemma_backers_whos(staked: Seq<BackedAssignment>, target: u64)
    ensures
        forall|j: int|
            0 <= j < spec_backers_for(staked, target).len() ==> exists|k: int|
                0 <= k < staked.len() && (#[trigger] spec_backers_for(staked, target)[j]).0
                    == staked[k].who,
    decreases staked.len(),
{
    if staked.len() > 0 {
        let prefix = spec_backers_for(staked.drop_last(), target);
        let edges = spec_edges_to(staked.last().who, staked.last().distribution@, target);
        lemma_backers_whos(staked.drop_last(), target);
        lemma_edges_to_whos(staked.last().who, staked.last().distribution@, target);
        assert forall|j: int|
            0 <= j < spec_backers_for(staked, target).len() implies exists|k: int|
            0 <= k < staked.len() && (#[trigger] spec_backers_for(staked, target)[j]).0
                == staked[k].who by {
            if j < prefix.len() {
                assert(spec_backers_for(staked, target)[j] == prefix[j]);
                let k = choose|k: int|
                    0 <= k < staked.drop_last().len() && #[trigger] prefix[j].0
                        == staked.drop_last()[k].who;
                assert(staked[k].who == staked.drop_last()[k].who);
                assert(spec_backers_for(staked, target)[j].0 == staked[k].who);
            } else {
                assert(spec_backers_for(staked, target)[j] == edges[j - prefix.len()]);
                assert(spec_backers_for(staked, target)[j].0 == staked.last().who);
                assert(staked[staked.len() - 1].who == staked.last().who);
            }
        }
    }
}

/// Every distinct target of a compact solution occurs as the target of one
/// of its edges.
pub proof fn lemma_unique_of_edges_membership(acc: Seq<u16>, edges: Seq<(u16, u32)>, t: u16)
    requires
        spec_unique_of_edges(acc, edges).contains(t),
    ensures
        acc.contains(t) || exists|j: int| 0 <= j < edges.len() && (#[trigger] edges[j]).0 == t,
    decreases edges.len(),
{
    if edges.len() == 0 {
    } else {
        let prev = spec_unique_of_edges(acc, edges.drop_last());
        if spec_insert_unique(prev, edges.last().0).contains(t) {
            if prev.contains(t) {
                lemma_unique_of_edges_membership(acc, edges.drop_last(), t);
                if !acc.contains(t) {
                    let j = choose|j: int|
                        0 <= j < edges.drop_last().len() && (#[trigger] edges.drop_last()[j]).0
                            == t;
                    assert(edges[j].0 == t);
                }
            } else {
                assert(edges.last().0 == t);
                assert(edges[edges.len() - 1].0 == t);
            }
        }
    }
}

/// Every element of the distinct-target list of a compact solution is the
/// target of one of its edges.
pub proof fn lemma_unique_targets_membership(votes: Seq<(u32, Vec<(u16, u32)>)>, t: u16)
    requires
        spec_unique_targets(votes).contains(t),
    ensures
        exists|i: int, j: int|
            0 <= i < votes.len() && 0 <= j < votes[i].1@.len() && (#[trigger] votes[i].1@[j]).0
                == t,
    decreases votes.len(),
{
    if votes.len() > 0 {
        lemma_unique_of_edges_membership(
            spec_unique_targets(votes.drop_last()),
            votes.last().1@,
            t,
        );
        if spec_unique_targets(votes.drop_last()).contains(t) {
            lemma_unique_targets_membership(votes.drop_last(), t);
            let (i, j) = choose|i: int, j: int|
                0 <= i < votes.drop_last().len() && 0 <= j < votes.drop_last()[i].1@.len() && (
                #[trigger] votes.drop_last()[i].1@[j]).0 == t;
            assert(votes[i].1@[j].0 == t);
        } else {
            let j = choose|j: int|
                0 <= j < votes.last().1@.len() && (#[trigger] votes.last().1@[j]).0 == t;
            assert(votes[votes.len() - 1].1@[j].0 == t);
        }
    }
}

/// Whether the number of distinct targets of the compact solution equals
/// the snapshot's desired winner count.
pub open spec fn spec_winner_count_ok(c: CompactSolution, desired: u32) -> bool {
    spec_unique_targets(c.votes@).len() == desired as int
}

/// Whether every edge of the compact solution points at a target that its
/// voter approves of in the snapshot.
pub open spec fn spec_votes_in_approvals(
    votes: Seq<(u32, Vec<(u16, u32)>)>,
    voters: Seq<(AccountId, VoteWeight, Vec<AccountId>)>,
    targets: Seq<AccountId>,
) -> bool {
    forall|i: int, j: int|
        0 <= i < votes.len() && 0 <= j < votes[i].1@.len() ==> voters[votes[i].0 as int].2@
            .contains(targets[(#[trigger] votes[i].1@[j]).0 as int])
}

/// The winner accounts of a compact solution: its distinct target indices
/// resolved against the snapshot, in first appearance order.
pub open spec fn spec_winner_accounts(
    votes: Seq<(u32, Vec<(u16, u32)>)>,
    targets: Seq<AccountId>,
) -> Seq<AccountId> {
    spec_unique_targets(votes).map_values(|t: u16| targets[t as int])
}

/// The ratio assignments' content that a compact solution expands to:
/// every index resolved against the snapshot. Meaningful when all indices
/// are in range.
pub open spec fn spec_expanded_ratio(
    votes: Seq<(u32, Vec<(u16, u32)>)>,
    voters: Seq<(AccountId, VoteWeight, Vec<AccountId>)>,
    targets: Seq<AccountId>,
) -> Seq<(AccountId, Seq<(AccountId, u32)>)> {
    votes.map_values(
        |v: (u32, Vec<(u16, u32)>)|
            (voters[v.0 as int].0, v.1@.map_values(|e: (u16, u32)| (targets[e.0 as int], e.1))),
    )
}

/// Assignments that resolve a compact solution have exactly the expanded
/// content.
pub proof fn lemma_assignments_match_views(
    votes: Seq<(u32, Vec<(u16, u32)>)>,
    voters: Seq<(AccountId, VoteWeight, Vec<AccountId>)>,
    targets: Seq<AccountId>,
    a: Seq<RatioAssignment>,
)
    requires
        spec_assignments_match(votes, voters, targets, a),
    ensures
        spec_ratio_views(a) == spec_expanded_ratio(votes, voters, targets),
{
    assert forall|i: int| 0 <= i < votes.len() implies #[trigger] spec_ratio_views(a)[i]
        == spec_expanded_ratio(votes, voters, targets)[i] by {
        assert(a[i].distribution@ =~= votes[i].1@.map_values(
            |e: (u16, u32)| (targets[e.0 as int], e.1),
        ));
    }
    assert(spec_ratio_views(a) =~= spec_expanded_ratio(votes, voters, targets));
}

/// Packing assignments and expanding the result gives the assignments'
/// content back, and every packed index is in range.
pub proof fn lemma_packed_expand(
    a: Seq<RatioAssignment>,
    voters: Seq<(AccountId, VoteWeight, Vec<AccountId>)>,
    targets: Seq<AccountId>,
    votes: Seq<(u32, Vec<(u16, u32)>)>,
)
    requires
        crate::compact::spec_packed_match(a, voters, targets, votes),
    ensures
        spec_expanded_ratio(votes, voters, targets) == spec_ratio_views(a),
        spec_voter_indices_valid(votes, voters.len() as int),
        spec_target_indices_valid(votes, targets.len() as int),
{
    assert forall|i: int|
        0 <= i < votes.len() implies (#[trigger] votes[i].0 as int) < voters.len() by {
        crate::snapshot::lemma_first_index_sound(
            crate::snapshot::spec_voter_keys(voters),
            a[i].who,
        );
    }
    assert forall|i: int, j: int|
        0 <= i < votes.len() && 0 <= j < votes[i].1@.len() implies (
    #[trigger] votes[i].1@[j].0 as int) < targets.len() by {
        crate::snapshot::lemma_first_index_sound(targets, a[i].distribution@[j].0);
    }
    assert forall|i: int|
        0 <= i < votes.len() implies #[trigger] spec_expanded_ratio(votes, voters, targets)[i]
        == spec_ratio_views(a)[i] by {
        crate::snapshot::lemma_first_index_sound(
            crate::snapshot::spec_voter_keys(voters),
            a[i].who,
        );
        assert(voters[votes[i].0 as int].0 == a[i].who);
        let mapped = votes[i].1@.map_values(|e: (u16, u32)| (targets[e.0 as int], e.1));
        assert forall|j: int|
            0 <= j < votes[i].1@.len() implies #[trigger] mapped[j] == a[i].distribution@[j] by {
            crate::snapshot::lemma_first_index_sound(targets, a[i].distribution@[j].0);
            assert(targets[votes[i].1@[j].0 as int] == a[i].distribution@[j].0);
        }
        assert(mapped =~= a[i].distribution@);
    }
    assert(spec_expanded_ratio(votes, voters, targets) =~= spec_ratio_views(a));
}

/// The normalized staked assignments that a compact solution induces over
/// the snapshot: the canonical value that acceptance and scores are
/// measured against.
pub open spec fn spec_canonical_staked(
    snap: RoundSnapshot,
    votes: Seq<(u32, Vec<(u16, u32)>)>,
) -> Result<Vec<BackedAssignment>, crate::types::NposError> {
    staked_norm_of(
        spec_expanded_ratio(votes, snap.voters@, snap.targets@),
        spec_voter_views(snap.voters@),
    )
}

/// The election score of a sequence of winner totals: least total,
/// saturating sum, saturating sum of squares; an empty list scores the
/// numeric maximum as its least total.
pub open spec fn spec_evaluate_totals(totals: Seq<u128>) -> crate::types::ElectionScore
    decreases totals.len(),
{
    if totals.len() == 0 {
        crate::types::ElectionScore { minimal_stake: u128::MAX, sum_stake: 0, sum_stake_squared: 0 }
    } else {
        let rest = spec_evaluate_totals(totals.drop_last());
        let t = totals.last();
        crate::types::ElectionScore {
            minimal_stake: if t < rest.minimal_stake {
                t
            } else {
                rest.minimal_stake
            },
            sum_stake: crate::score::sat_add_spec(rest.sum_stake, t),
            sum_stake_squared: crate::score::sat_add_spec(
                rest.sum_stake_squared,
                crate::score::sat_mul_spec(t, t),
            ),
        }
    }
}

/// The per-winner totals of `staked`, in winner order.
pub open spec fn spec_totals_for(winners: Seq<u64>, staked: Seq<BackedAssignment>) -> Seq<u128> {
    winners.map_values(|t: u64| spec_total_of(spec_backers_for(staked, t)))
}

/// A support set's score is the score of its totals.
pub proof fn lemma_evaluate_by_totals(sup: Seq<(AccountId, Support)>, totals: Seq<u128>)
    requires
        sup.len() == totals.len(),
        forall|i: int| 0 <= i < sup.len() ==> (#[trigger] sup[i]).1.total == totals[i],
    ensures
        spec_evaluate(sup) == spec_evaluate_totals(totals),
    decreases sup.len(),
{
    if sup.len() > 0 {
        assert(forall|i: int|
            0 <= i < sup.drop_last().len() ==> (#[trigger] sup.drop_last()[i]).1.total
                == totals.drop_last()[i]);
        lemma_evaluate_by_totals(sup.drop_last(), totals.drop_last());
    }
}

/// The canonical score of a compact solution over the snapshot, when its
/// stakes normalize.
pub open spec fn spec_compact_score(
    snap: RoundSnapshot,
    votes: Seq<(u32, Vec<(u16, u32)>)>,
) -> Option<crate::types::ElectionScore> {
    match spec_canonical_staked(snap, votes) {
        Ok(s) => Some(
            spec_evaluate_totals(spec_totals_for(spec_winner_accounts(votes, snap.targets@), s@)),
        ),
        Err(_) => None,
    }
}

/// The canonical score reads only a compact solution's content: two
/// solutions with the same content score the same.
pub proof fn lemma_compact_score_by_views(
    snap: RoundSnapshot,
    votes1: Seq<(u32, Vec<(u16, u32)>)>,
    votes2: Seq<(u32, Vec<(u16, u32)>)>,
)
    requires
        votes1.len() == votes2.len(),
        forall|i: int|
            0 <= i < votes1.len() ==> (#[trigger] votes1[i]).0 == votes2[i].0 && votes1[i].1@
                == votes2[i].1@,
    ensures
        spec_compact_score(snap, votes1) == spec_compact_score(snap, votes2),
{
    assert(spec_expanded_ratio(votes1, snap.voters@, snap.targets@) =~= spec_expanded_ratio(
        votes2,
        snap.voters@,
        snap.targets@,
    )) by {
        assert forall|i: int|
            0 <= i < votes1.len() implies #[trigger] spec_expanded_ratio(
            votes1,
            snap.voters@,
            snap.targets@,
        )[i] == spec_expanded_ratio(votes2, snap.voters@, snap.targets@)[i] by {
            assert(votes1[i].1@.map_values(
                |e: (u16, u32)| (snap.targets@[e.0 as int], e.1),
            ) =~= votes2[i].1@.map_values(|e: (u16, u32)| (snap.targets@[e.0 as int], e.1)));
        }
    }
    crate::compact::lemma_unique_targets_by_views(votes1, votes2);
    assert(spec_winner_accounts(votes1, snap.targets@) == spec_winner_accounts(
        votes2,
        snap.targets@,
    ));
}

/// The acceptance condition of the feasibility check: the right number of
/// distinct winners, every index in range, every edge approved by its
/// voter, and the canonical score equal to the claimed one.
pub open spec fn spec_feasible(snap: RoundSnapshot, solution: RawSolution) -> bool {
    &&& spec_winner_count_ok(solution.compact, snap.desired_targets)
    &&& spec_voter_indices_valid(solution.compact.votes@, snap.voters@.len() as int)
    &&& spec_target_indices_valid(solution.compact.votes@, snap.targets@.len() as int)
    &&& spec_votes_in_approvals(solution.compact.votes@, snap.voters@, snap.targets@)
    &&& spec_compact_score(snap, solution.compact.votes@) == Some(solution.score)
}

/// Check a claimed solution against the snapshot. All of the following must
/// hold, in this order: the solution presents exactly the desired number of
/// distinct targets; every voter and target index resolves; every edge
/// points at a target its voter approves; the ratios convert and normalize
/// to stakes; and the score of the resulting supports is exactly the
/// claimed score.
#[verifier::loop_isolation(false)]
pub fn check_feasibility(
    snapshot: &RoundSnapshot,
    solution: RawSolution,
    compute: ElectionCompute,
) -> (r: Result<ReadySolution, FeasibilityError>)
    ensures
        r is Ok <==> spec_feasible(*snapshot, solution),
        r matches Ok(ready) ==> ready.compute == compute && ready.score == solution.score
            && spec_evaluate(ready.supports@) == solution.score && (spec_canonical_staked(
            *snapshot,
            solution.compact.votes@,
        ) matches Ok(s) && spec_supports_match(
            spec_winner_accounts(solution.compact.votes@, snapshot.targets@),
            s@,
            ready.supports@,
        )),
        r matches Err(e) ==> match e {
            FeasibilityError::WrongWinnerCount => !spec_winner_count_ok(
                solution.compact,
                snapshot.desired_targets,
            ),
            FeasibilityError::InvalidVoter => spec_winner_count_ok(
                solution.compact,
                snapshot.desired_targets,
            ) && !spec_voter_indices_valid(solution.compact.votes@, snapshot.voters@.len() as int),
            FeasibilityError::InvalidWinner => spec_winner_count_ok(
                solution.compact,
                snapshot.desired_targets,
            ) && spec_voter_indices_valid(solution.compact.votes@, snapshot.voters@.len() as int)
                && !spec_target_indices_valid(
                solution.compact.votes@,
                snapshot.targets@.len() as int,
            ),
            FeasibilityError::InvalidVote => spec_winner_count_ok(
                solution.compact,
                snapshot.desired_targets,
            ) && spec_voter_indices_valid(solution.compact.votes@, snapshot.voters@.len() as int)
                && spec_target_indices_valid(
                solution.compact.votes@,
                snapshot.targets@.len() as int,
            ) && !spec_votes_in_approvals(
                solution.compact.votes@,
                snapshot.voters@,
                snapshot.targets@,
            ),
            FeasibilityError::NposElection(ne) => spec_winner_count_ok(
                solution.compact,
                snapshot.desired_targets,
            ) && spec_voter_indices_valid(solution.compact.votes@, snapshot.voters@.len() as int)
                && spec_target_indices_valid(
                solution.compact.votes@,
                snapshot.targets@.len() as int,
            ) && spec_votes_in_approvals(
                solution.compact.votes@,
                snapshot.voters@,
                snapshot.targets@,
            ) && spec_canonical_staked(*snapshot, solution.compact.votes@) == Err::<
                Vec<BackedAssignment>,
                _,
            >(ne),
            FeasibilityError::InvalidScore => spec_winner_count_ok(
                solution.compact,
                snapshot.desired_targets,
            ) && spec_voter_indices_valid(solution.compact.votes@, snapshot.voters@.len() as int)
                && spec_target_indices_valid(
                solution.compact.votes@,
                snapshot.targets@.len() as int,
            ) && spec_votes_in_approvals(
                solution.compact.votes@,
                snapshot.voters@,
                snapshot.targets@,
            ) && spec_canonical_staked(*snapshot, solution.compact.votes@) is Ok
                && spec_compact_score(*snapshot, solution.compact.votes@) != Some(solution.score),
            FeasibilityError::SnapshotUnavailable => false,
        },
{
    let winners_idx = solution.compact.unique_targets();
    if winners_idx.len() != snapshot.desired_targets as usize {
        return Err(FeasibilityError::WrongWinnerCount);
    }
    let assignments = match solution.compact.into_assignment(&snapshot.voters, &snapshot.targets) {
        Ok(a) => a,
        Err(e) => {
            return Err(e);
        },
    };
    let ghost votes = solution.compact.votes@;
    let mut winner_accounts: Vec<AccountId> = Vec::new();
    let mut i: usize = 0;
    while i < winners_idx.len()
        invariant
            i <= winners_idx@.len(),
            winner_accounts@.len() == i,
            forall|k: int|
                0 <= k < i ==> #[trigger] winner_accounts@[k] == snapshot.targets@[winners_idx@[k] as int],
        decreases winners_idx@.len() - i,
    {
        let t = winners_idx[i];
        proof {
            assert(spec_unique_targets(votes).contains(t));
            lemma_unique_targets_membership(votes, t);
        }
        winner_accounts.push(snapshot.targets[t as usize]);
        i = i + 1;
    }
    proof {
        assert(winner_accounts@ =~= spec_winner_accounts(votes, snapshot.targets@));
    }
    let mut i: usize = 0;
    while i < solution.compact.votes.len()
        invariant
            i <= votes.len(),
            forall|k: int, j: int|
                0 <= k < i && 0 <= j < votes[k].1@.len() ==> snapshot.voters@[votes[k].0 as int].2@
                    .contains(snapshot.targets@[(#[trigger] votes[k].1@[j]).0 as int]),
        decreases votes.len() - i,
    {
        let (vidx, edges) = &solution.compact.votes[i];
        let approvals = &snapshot.voters[*vidx as usize].2;
        let mut j: usize = 0;
        while j < edges.len()
            invariant
                j <= edges@.len(),
                edges@ == votes[i as int].1@,
                i < votes.len(),
                approvals@ == snapshot.voters@[votes[i as int].0 as int].2@,
                forall|k: int|
                    0 <= k < j ==> approvals@.contains(
                        snapshot.targets@[(#[trigger] edges@[k]).0 as int],
                    ),
            decreases edges@.len() - j,
        {
            let t_acc = snapshot.targets[edges[j].0 as usize];
            if !crate::snapshot::contains_account(approvals, t_acc) {
                proof {
                    assert(!spec_votes_in_approvals(votes, snapshot.voters@, snapshot.targets@))
                        by {
                        assert(!snapshot.voters@[votes[i as int].0 as int].2@.contains(
                            snapshot.targets@[votes[i as int].1@[j as int].0 as int],
                        ));
                    }
                }
                return Err(FeasibilityError::InvalidVote);
            }
            j = j + 1;
        }
        i = i + 1;
    }
    let staked = match ratio_to_staked_normalized(&assignments, &snapshot.voters) {
        Ok(s) => s,
        Err(ne) => {
            proof {
                lemma_assignments_match_views(
                    votes,
                    snapshot.voters@,
                    snapshot.targets@,
                    assignments@,
                );
                assert(spec_canonical_staked(*snapshot, votes) == Err::<
                    Vec<BackedAssignment>,
                    _,
                >(ne));
            }
            return Err(FeasibilityError::NposElection(ne));
        },
    };
    let supports = build_supports(&winner_accounts, &staked);
    let known_score = evaluate_supports(&supports);
    proof {
        lemma_assignments_match_views(votes, snapshot.voters@, snapshot.targets@, assignments@);
        assert(spec_canonical_staked(*snapshot, votes) == Ok::<_, crate::types::NposError>(
            staked,
        ));
        assert forall|i: int|
            0 <= i < supports@.len() implies (#[trigger] supports@[i]).1.total == spec_totals_for(
            spec_winner_accounts(votes, snapshot.targets@),
            staked@,
        )[i] by {
            assert(spec_totals_for(spec_winner_accounts(votes, snapshot.targets@), staked@)[i]
                == spec_total_of(
                spec_backers_for(staked@, spec_winner_accounts(votes, snapshot.targets@)[i]),
            ));
        }
        lemma_evaluate_by_totals(
            supports@,
            spec_totals_for(spec_winner_accounts(votes, snapshot.targets@), staked@),
        );
        assert(spec_compact_score(*snapshot, votes) == Some(spec_evaluate(supports@)));
    }
    if !(known_score == solution.score) {
        return Err(FeasibilityError::InvalidScore);
    }
    proof {
        assert(spec_feasible(*snapshot, solution));
    }
    Ok(ReadySolution { supports, score: solution.score, compute })
}

} // verus!
