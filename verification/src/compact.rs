//! The compact, index-encoded form of a solution: packed voter-major edges
//! with fixed-precision weights, together with the raw and signed submission
//! wrappers around it.

use vstd::prelude::*;
use crate::types::{
    AccountId, RatioAssignment, Balance, ElectionScore, FeasibilityError, NposError, VoteWeight,
};
use crate::snapshot::{
    lemma_first_index_none, lemma_first_index_characterization, spec_first_index, spec_voter_keys,
    target_index, voter_index,
};

verus! {

/// A packed assignment of voter indices to target indices, with per-edge
/// ratio parts. Index-based references into the round snapshot are the
/// canonical encoding of a solution.
#[derive(Clone, PartialEq, Debug)]
pub struct CompactSolution {
    /// One entry per voter: the voter's snapshot index and its edges, each a
    /// target's snapshot index with the ratio (`parts / PARTS_ONE`) of the
    /// voter's stake routed there.
    pub votes: Vec<(u32, Vec<(u16, u32)>)>,
}

impl Default for CompactSolution {
    fn default() -> (r: Self)
        ensures
            r.votes@ == Seq::<(u32, Vec<(u16, u32)>)>::empty(),
    {
        CompactSolution { votes: Vec::new() }
    }
}

/// The voter-index keys of a compact solution, widened for index lookup.
pub open spec fn spec_vote_keys(votes: Seq<(u32, Vec<(u16, u32)>)>) -> Seq<u64> {
    votes.map_values(|v: (u32, Vec<(u16, u32)>)| v.0 as u64)
}

/// Insert a target into an accumulator of distinct targets: appended if not
/// yet present.
pub open spec fn spec_insert_unique(acc: Seq<u16>, t: u16) -> Seq<u16> {
    if acc.contains(t) {
        acc
    } else {
        acc.push(t)
    }
}

/// The distinct targets of one edge list, appended to `acc` in first
/// appearance order.
pub open spec fn spec_unique_of_edges(acc: Seq<u16>, edges: Seq<(u16, u32)>) -> Seq<u16>
    decreases edges.len(),
{
    if edges.len() == 0 {
        acc
    } else {
        spec_insert_unique(spec_unique_of_edges(acc, edges.drop_last()), edges.last().0)
    }
}

/// All distinct target indices of a compact solution, in first appearance
/// order.
pub open spec fn spec_unique_targets(votes: Seq<(u32, Vec<(u16, u32)>)>) -> Seq<u16>
    decreases votes.len(),
{
    if votes.len() == 0 {
        Seq::<u16>::empty()
    } else {
        spec_unique_of_edges(spec_unique_targets(votes.drop_last()), votes.last().1@)
    }
}

/// Every voter index of `votes` resolves against a snapshot of `n` voters.
pub open spec fn spec_voter_indices_valid(votes: Seq<(u32, Vec<(u16, u32)>)>, n: int) -> bool {
    forall|i: int| 0 <= i < votes.len() ==> (#[trigger] votes[i].0 as int) < n
}

/// Every target index of `votes` resolves against a snapshot of `m` targets.
pub open spec fn spec_target_indices_valid(votes: Seq<(u32, Vec<(u16, u32)>)>, m: int) -> bool {
    forall|i: int, j: int|
        0 <= i < votes.len() && 0 <= j < votes[i].1@.len() ==> (#[trigger] votes[i].1@[j].0 as int)
            < m
}

/// Whether `r` is exactly `votes` resolved against the snapshot: same
/// voter order, each index replaced by the account it points at.
pub open spec fn spec_assignments_match(
    votes: Seq<(u32, Vec<(u16, u32)>)>,
    voters: Seq<(AccountId, VoteWeight, Vec<AccountId>)>,
    targets: Seq<AccountId>,
    r: Seq<RatioAssignment>,
) -> bool {
    &&& r.len() == votes.len()
    &&& forall|i: int| 0 <= i < votes.len() ==> (#[trigger] r[i]).who == voters[votes[i].0 as int].0
    &&& forall|i: int|
        0 <= i < votes.len() ==> (#[trigger] r[i]).distribution@.len() == votes[i].1@.len()
    &&& forall|i: int, j: int|
        0 <= i < votes.len() && 0 <= j < votes[i].1@.len() ==> (#[trigger] r[i].distribution@[j])
            == (targets[votes[i].1@[j].0 as int], votes[i].1@[j].1)
}

/// Two compact solutions with the same content have the same distinct
/// targets.
pub proof fn lemma_unique_targets_by_views(
    votes1: Seq<(u32, Vec<(u16, u32)>)>,
    votes2: Seq<(u32, Vec<(u16, u32)>)>,
)
    requires
        votes1.len() == votes2.len(),
        forall|i: int|
            0 <= i < votes1.len() ==> (#[trigger] votes1[i]).0 == votes2[i].0 && votes1[i].1@
                == votes2[i].1@,
    ensures
        spec_unique_targets(votes1) == spec_unique_targets(votes2),
    decreases votes1.len(),
{
    if votes1.len() > 0 {
        assert(forall|i: int|
            0 <= i < votes1.drop_last().len() ==> (#[trigger] votes1.drop_last()[i]).0
                == votes2.drop_last()[i].0 && votes1.drop_last()[i].1@
                == votes2.drop_last()[i].1@);
        lemma_unique_targets_by_views(votes1.drop_last(), votes2.drop_last());
        assert(votes1.last().1@ == votes2.last().1@);
    }
}

/// Whether `votes` is exactly `a` packed against the snapshot: each
/// account replaced by its first index, each part kept.
pub open spec fn spec_packed_match(
    a: Seq<RatioAssignment>,
    voters: Seq<(AccountId, VoteWeight, Vec<AccountId>)>,
    targets: Seq<AccountId>,
    votes: Seq<(u32, Vec<(u16, u32)>)>,
) -> bool {
    &&& votes.len() == a.len()
    &&& forall|i: int|
        0 <= i < a.len() ==> spec_first_index(spec_voter_keys(voters), (#[trigger] a[i]).who)
            == Some(votes[i].0 as int)
    &&& forall|i: int|
        0 <= i < a.len() ==> (#[trigger] votes[i]).1@.len() == a[i].distribution@.len()
    &&& forall|i: int, j: int|
        0 <= i < a.len() && 0 <= j < a[i].distribution@.len() ==> spec_first_index(
            targets,
            (#[trigger] a[i].distribution@[j]).0,
        ) == Some(votes[i].1@[j].0 as int) && votes[i].1@[j].1 == a[i].distribution@[j].1
}

impl CompactSolution {
    /// The number of voters that this solution carries edges for.
    pub fn voters_count(&self) -> (r: usize)
        ensures
            r == self.votes@.len(),
    {
        self.votes.len()
    }

    /// All distinct target indices of this solution, in first appearance
    /// order.
    pub fn unique_targets(&self) -> (r: Vec<u16>)
        ensures
            r@ == spec_unique_targets(self.votes@),
    {
        let mut acc: Vec<u16> = Vec::new();
        let mut i: usize = 0;
        while i < self.votes.len()
            invariant
                i <= self.votes@.len(),
                acc@ == spec_unique_targets(self.votes@.take(i as int)),
            decreases self.votes@.len() - i,
        {
            let edges = &self.votes[i].1;
            let ghost before = acc@;
            let mut j: usize = 0;
            while j < edges.len()
                invariant
                    j <= edges@.len(),
                    edges@ == self.votes@[i as int].1@,
                    i < self.votes@.len(),
                    acc@ == spec_unique_of_edges(before, edges@.take(j as int)),
                decreases edges@.len() - j,
            {
                let t = edges[j].0;
                proof {
                    assert(edges@.take(j + 1).drop_last() =~= edges@.take(j as int));
                }
                if !contains_u16(&acc, t) {
                    acc.push(t);
                }
                j = j + 1;
            }
            proof {
                assert(edges@.take(edges@.len() as int) =~= edges@);
                assert(self.votes@.take(i + 1).drop_last() =~= self.votes@.take(i as int));
                assert(self.votes@.take(i + 1).last() == self.votes@[i as int]);
            }
            i = i + 1;
        }
        proof {
            assert(self.votes@.take(self.votes@.len() as int) =~= self.votes@);
        }
        acc
    }

    /// Remove the entry of the given voter index, if one exists; report
    /// whether one was removed.
    pub fn remove_voter(&mut self, index: u32) -> (r: bool)
        ensures
            match spec_first_index(spec_vote_keys(old(self).votes@), index as u64) {
                Some(p) => r == true && final(self).votes@ == old(self).votes@.remove(p),
                None => r == false && final(self).votes@ == old(self).votes@,
            },
    {
        let ghost keys = spec_vote_keys(self.votes@);
        let mut i: usize = 0;
        while i < self.votes.len()
            invariant
                i <= self.votes@.len(),
                self.votes@ == old(self).votes@,
                keys == spec_vote_keys(self.votes@),
                forall|k: int| 0 <= k < i ==> keys[k] != index as u64,
            decreases self.votes@.len() - i,
        {
            if self.votes[i].0 == index {
                proof {
                    lemma_first_index_characterization(keys, index as u64, i as int);
                }
                self.votes.remove(i);
                return true;
            }
            i = i + 1;
        }
        proof {
            lemma_first_index_none(keys, index as u64);
        }
        false
    }

    /// Expand this compact solution into per-voter ratio assignments over
    /// accounts, resolving every index against the snapshot. An out-of-range
    /// voter index yields `InvalidVoter`; otherwise an out-of-range target
    /// index yields `InvalidWinner`.
    pub fn into_assignment(
        &self,
        voters: &Vec<(AccountId, VoteWeight, Vec<AccountId>)>,
        targets: &Vec<AccountId>,
    ) -> (r: Result<Vec<RatioAssignment>, FeasibilityError>)
        ensures
            match r {
                Ok(a) => spec_voter_indices_valid(self.votes@, voters@.len() as int)
                    && spec_target_indices_valid(self.votes@, targets@.len() as int)
                    && spec_assignments_match(self.votes@, voters@, targets@, a@),
                Err(e) => (e == FeasibilityError::InvalidVoter && !spec_voter_indices_valid(
                    self.votes@,
                    voters@.len() as int,
                )) || (e == FeasibilityError::InvalidWinner && spec_voter_indices_valid(
                    self.votes@,
                    voters@.len() as int,
                ) && !spec_target_indices_valid(self.votes@, targets@.len() as int)),
            },
    {
        let mut i: usize = 0;
        while i < self.votes.len()
            invariant
                i <= self.votes@.len(),
                forall|k: int| 0 <= k < i ==> (#[trigger] self.votes@[k].0 as int) < voters@.len(),
            decreases self.votes@.len() - i,
        {
            if self.votes[i].0 as usize >= voters.len() {
                proof {
                    assert(self.votes@[i as int].0 as int >= voters@.len());
                    assert(!spec_voter_indices_valid(self.votes@, voters@.len() as int));
                }
                return Err(FeasibilityError::InvalidVoter);
            }
            i = i + 1;
        }
        let mut i: usize = 0;
        while i < self.votes.len()
            invariant
                i <= self.votes@.len(),
                spec_voter_indices_valid(self.votes@, voters@.len() as int),
                forall|k: int, j: int|
                    0 <= k < i && 0 <= j < self.votes@[k].1@.len() ==> (
                    #[trigger] self.votes@[k].1@[j].0 as int) < targets@.len(),
            decreases self.votes@.len() - i,
        {
            let edges = &self.votes[i].1;
            let mut j: usize = 0;
            while j < edges.len()
                invariant
                    j <= edges@.len(),
                    edges@ == self.votes@[i as int].1@,
                    i < self.votes@.len(),
                    spec_voter_indices_valid(self.votes@, voters@.len() as int),
                    forall|k: int| 0 <= k < j ==> (#[trigger] edges@[k].0 as int) < targets@.len(),
                decreases edges@.len() - j,
            {
                if edges[j].0 as usize >= targets.len() {
                    proof {
                        assert(self.votes@[i as int].1@[j as int].0 as int >= targets@.len());
                        assert(!spec_target_indices_valid(self.votes@, targets@.len() as int));
                    }
                    return Err(FeasibilityError::InvalidWinner);
                }
                j = j + 1;
            }
            i = i + 1;
        }
        let mut out: Vec<RatioAssignment> = Vec::new();
        let mut i: usize = 0;
        while i < self.votes.len()
            invariant
                i <= self.votes@.len(),
                spec_voter_indices_valid(self.votes@, voters@.len() as int),
                spec_target_indices_valid(self.votes@, targets@.len() as int),
                spec_assignments_match(self.votes@.take(i as int), voters@, targets@, out@),
            decreases self.votes@.len() - i,
        {
            let (vidx, edges) = &self.votes[i];
            let who = voters[*vidx as usize].0;
            let mut distribution: Vec<(AccountId, u32)> = Vec::new();
            let mut j: usize = 0;
            while j < edges.len()
                invariant
                    j <= edges@.len(),
                    edges@ == self.votes@[i as int].1@,
                    i < self.votes@.len(),
                    spec_target_indices_valid(self.votes@, targets@.len() as int),
                    distribution@.len() == j,
                    forall|k: int|
                        0 <= k < j ==> #[trigger] distribution@[k] == (
                        targets@[edges@[k].0 as int], edges@[k].1),
                decreases edges@.len() - j,
            {
                let (tidx, parts) = edges[j];
                distribution.push((targets[tidx as usize], parts));
                j = j + 1;
            }
            out.push(RatioAssignment { who, distribution });
            i = i + 1;
        }
        proof {
            assert(self.votes@.take(self.votes@.len() as int) =~= self.votes@);
        }
        Ok(out)
    }

    /// Pack per-voter ratio assignments into compact form, replacing every
    /// account by its first index in the snapshot. An account that is not in
    /// the snapshot yields `SolutionInvalidIndex`.
    pub fn from_assignment(
        assignments: &Vec<RatioAssignment>,
        voters: &Vec<(AccountId, VoteWeight, Vec<AccountId>)>,
        targets: &Vec<AccountId>,
    ) -> (r: Result<CompactSolution, NposError>)
        requires
            voters@.len() <= u32::MAX,
            targets@.len() <= u16::MAX,
        ensures
            match r {
                Ok(c) => spec_packed_match(assignments@, voters@, targets@, c.votes@),
                Err(e) => e == NposError::SolutionInvalidIndex && ((exists|i: int|
                    0 <= i < assignments@.len() && spec_first_index(
                        spec_voter_keys(voters@),
                        (#[trigger] assignments@[i]).who,
                    ) is None) || (exists|i: int, j: int|
                    0 <= i < assignments@.len() && 0 <= j < assignments@[i].distribution@.len()
                        && spec_first_index(
                        targets@,
                        (#[trigger] assignments@[i].distribution@[j]).0,
                    ) is None)),
            },
    {
        let mut out: Vec<(u32, Vec<(u16, u32)>)> = Vec::new();
        let mut i: usize = 0;
        while i < assignments.len()
            invariant
                i <= assignments@.len(),
                voters@.len() <= u32::MAX,
                targets@.len() <= u16::MAX,
                out@.len() == i,
                forall|k: int|
                    0 <= k < i ==> spec_first_index(
                        spec_voter_keys(voters@),
                        (#[trigger] assignments@[k]).who,
                    ) == Some(out@[k].0 as int),
                forall|k: int|
                    0 <= k < i ==> (#[trigger] out@[k]).1@.len()
                        == assignments@[k].distribution@.len(),
                forall|k: int, j: int|
                    0 <= k < i && 0 <= j < assignments@[k].distribution@.len() ==> spec_first_index(
                        targets@,
                        (#[trigger] assignments@[k].distribution@[j]).0,
                    ) == Some(out@[k].1@[j].0 as int) && out@[k].1@[j].1
                        == assignments@[k].distribution@[j].1,
            decreases assignments@.len() - i,
        {
            let a = &assignments[i];
            let vidx = match voter_index(voters, a.who) {
                Some(v) => v,
                None => {
                    proof {
                        assert(spec_first_index(
                            spec_voter_keys(voters@),
                            assignments@[i as int].who,
                        ) is None);
                    }
                    return Err(NposError::SolutionInvalidIndex);
                },
            };
            let mut edges: Vec<(u16, u32)> = Vec::new();
            let mut j: usize = 0;
            while j < a.distribution.len()
                invariant
                    j <= a.distribution@.len(),
                    targets@.len() <= u16::MAX,
                    a.distribution@ == assignments@[i as int].distribution@,
                    i < assignments@.len(),
                    edges@.len() == j,
                    forall|k: int|
                        0 <= k < j ==> spec_first_index(
                            targets@,
                            (#[trigger] a.distribution@[k]).0,
                        ) == Some(edges@[k].0 as int) && edges@[k].1 == a.distribution@[k].1,
                decreases a.distribution@.len() - j,
            {
                let (t, parts) = a.distribution[j];
                let tidx = match target_index(targets, t) {
                    Some(t) => t,
                    None => {
                        proof {
                            assert(spec_first_index(
                                targets@,
                                assignments@[i as int].distribution@[j as int].0,
                            ) is None);
                        }
                        return Err(NposError::SolutionInvalidIndex);
                    },
                };
                edges.push((tidx, parts));
                j = j + 1;
            }
            out.push((vidx, edges));
            i = i + 1;
        }
        Ok(CompactSolution { votes: out })
    }
}

/// Whether a vector of distinct targets already holds `t`.
fn contains_u16(v: &Vec<u16>, t: u16) -> (r: bool)
    ensures
        r == v@.contains(t),
{
    let mut i: usize = 0;
    while i < v.len()
        invariant
            i <= v@.len(),
            forall|k: int| 0 <= k < i ==> v@[k] != t,
        decreases v@.len() - i,
    {
        if v[i] == t {
            return true;
        }
        i = i + 1;
    }
    false
}

/// A raw, unchecked solution: what gets submitted to the chain. It should
/// never become effective before passing the feasibility check.
#[derive(Clone, PartialEq, Debug)]
pub struct RawSolution {
    /// Compact election edges.
    pub compact: CompactSolution,
    /// The _claimed_ score of the solution.
    pub score: ElectionScore,
    /// The round this solution was computed for.
    pub round: u32,
}

impl Default for RawSolution {
    fn default() -> (r: Self)
        ensures
            r.compact.votes@ == Seq::<(u32, Vec<(u16, u32)>)>::empty(),
            r.score == (ElectionScore { minimal_stake: 0, sum_stake: 0, sum_stake_squared: 0 }),
            r.round == 0,
    {
        RawSolution {
            compact: CompactSolution { votes: Vec::new() },
            score: ElectionScore { minimal_stake: 0, sum_stake: 0, sum_stake_squared: 0 },
            round: 0,
        }
    }
}

/// A raw solution queued during the signed phase, together with who
/// submitted it and the deposit and reward it carries.
#[derive(Clone, PartialEq, Debug)]
pub struct SignedSubmission {
    /// Who submitted this solution.
    pub who: AccountId,
    /// The deposit reserved for storing this solution.
    pub deposit: Balance,
    /// The reward to be paid if this solution is chosen as the final one.
    pub reward: Balance,
    /// The raw solution itself.
    pub solution: RawSolution,
}

} // verus!
