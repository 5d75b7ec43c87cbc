//! A simple on-chain election provider: sequential Phragmen on the fly,
//! with no balancing and no reduction. Expensive, used only as fallback.

use vstd::prelude::*;
use crate::types::{
    AccountId, NposError, BackedAssignment, Support, Supports, VoteWeight, spec_ratio_views,
    spec_voter_views,
};
use crate::external::{
    phragmen_of, ratio_to_staked_normalized, seq_phragmen_call, spec_staked_conserves,
    staked_norm_of,
};
use crate::feasibility::{build_supports, spec_supports_match};

verus! {

/// Errors of the on-chain election.
#[derive(Clone, Copy, PartialEq, Eq, Structural, Debug)]
pub enum OnchainError {
    /// An internal error in the NPoS election primitives.
    NposElections(NposError),
}

/// Whether `sup` is exactly the outcome of one sequential-Phragmen run
/// with no balancing over the given inputs: its winners' normalized
/// stakes, regrouped target-major in winner order.
pub open spec fn spec_onchain_result(
    to_elect: int,
    targets: Seq<AccountId>,
    voters: Seq<(AccountId, VoteWeight, Vec<AccountId>)>,
    sup: Seq<(AccountId, Support)>,
) -> bool {
    match phragmen_of(to_elect, targets, spec_voter_views(voters), None) {
        Ok(res) => match staked_norm_of(
            spec_ratio_views(res.assignments@),
            spec_voter_views(voters),
        ) {
            Ok(s) => spec_supports_match(
                res.winners@.map_values(|w: (AccountId, u128)| w.0),
                s@,
                sup,
            ),
            Err(_) => false,
        },
        Err(_) => false,
    }
}

/// Whether the on-chain run fails with `ne`: either the Phragmen run
/// itself fails so, or the normalization of its assignments does.
pub open spec fn spec_onchain_error(
    to_elect: int,
    targets: Seq<AccountId>,
    voters: Seq<(AccountId, VoteWeight, Vec<AccountId>)>,
    ne: NposError,
) -> bool {
    match phragmen_of(to_elect, targets, spec_voter_views(voters), None) {
        Ok(res) => staked_norm_of(spec_ratio_views(res.assignments@), spec_voter_views(voters))
            == Err::<Vec<BackedAssignment>, _>(ne),
        Err(e) => e == ne,
    }
}

/// A simple on-chain implementation of an election provider: accepts
/// voting data on the fly and produces the result immediately.
pub struct OnChainSequentialPhragmen;

impl OnChainSequentialPhragmen {
    /// Elect `to_elect` of the targets from the given voters: one
    /// Phragmen run, stake normalization, and target-major regrouping.
    /// Succeeds exactly when both steps do; every supported target is
    /// drawn from the target list, at most `to_elect` targets are
    /// supported, and every nonempty normalized distribution carries
    /// exactly its voter's stake.
    pub fn elect(
        to_elect: usize,
        targets: &Vec<AccountId>,
        voters: &Vec<(AccountId, VoteWeight, Vec<AccountId>)>,
    ) -> (r: Result<Supports, OnchainError>)
        ensures
            r is Ok <==> (phragmen_of(to_elect as int, targets@, spec_voter_views(voters@), None)
                matches Ok(res) && staked_norm_of(
                spec_ratio_views(res.assignments@),
                spec_voter_views(voters@),
            ) is Ok),
            r matches Ok(sup) ==> spec_onchain_result(to_elect as int, targets@, voters@, sup@),
            r matches Ok(sup) ==> sup@.len() <= to_elect,
            r matches Ok(sup) ==> forall|i: int|
                0 <= i < sup@.len() ==> targets@.contains((#[trigger] sup@[i]).0),
            r matches Ok(sup) ==> (phragmen_of(
                to_elect as int,
                targets@,
                spec_voter_views(voters@),
                None,
            ) matches Ok(res) && (staked_norm_of(
                spec_ratio_views(res.assignments@),
                spec_voter_views(voters@),
            ) matches Ok(s) && spec_staked_conserves(s@, voters@))),
            r matches Ok(sup) ==> forall|i: int, j: int|
                0 <= i < sup@.len() && 0 <= j < (#[trigger] sup@[i]).1.voters@.len()
                    ==> crate::snapshot::spec_voter_keys(voters@).contains(
                    (#[trigger] sup@[i].1.voters@[j]).0,
                ),
            r matches Err(e) ==> (e matches OnchainError::NposElections(ne)
                && spec_onchain_error(to_elect as int, targets@, voters@, ne)),
    {
        let result = match seq_phragmen_call(to_elect, targets, voters, None) {
            Ok(res) => res,
            Err(ne) => {
                return Err(OnchainError::NposElections(ne));
            },
        };
        let staked = match ratio_to_staked_normalized(&result.assignments, voters) {
            Ok(s) => s,
            Err(ne) => {
                return Err(OnchainError::NposElections(ne));
            },
        };
        let mut winners: Vec<AccountId> = Vec::new();
        let mut i: usize = 0;
        while i < result.winners.len()
            invariant
                i <= result.winners@.len(),
                winners@.len() == i,
                forall|k: int| 0 <= k < i ==> winners@[k] == (#[trigger] result.winners@[k]).0,
            decreases result.winners@.len() - i,
        {
            winners.push(result.winners[i].0);
            i = i + 1;
        }
        proof {
            assert(winners@ =~= result.winners@.map_values(|w: (AccountId, u128)| w.0));
        }
        let supports = build_supports(&winners, &staked);
        proof {
            assert forall|i: int, j: int|
                0 <= i < supports@.len() && 0 <= j < (#[trigger] supports@[i]).1.voters@.len()
                    implies crate::snapshot::spec_voter_keys(voters@).contains(
                (#[trigger] supports@[i].1.voters@[j]).0,
            ) by {
                assert(supports@[i].1.voters@ == crate::feasibility::spec_backers_for(
                    staked@,
                    winners@[i],
                ));
                crate::feasibility::lemma_backers_whos(staked@, winners@[i]);
                let k = choose|k: int|
                    0 <= k < staked@.len() && (#[trigger] crate::feasibility::spec_backers_for(
                        staked@,
                        winners@[i],
                    )[j]).0 == staked@[k].who;
                assert(staked@[k].who == result.assignments@[k].who);
                let k2 = choose|k2: int|
                    0 <= k2 < voters@.len() && (#[trigger] voters@[k2]).0
                        == result.assignments@[k].who;
                assert(crate::snapshot::spec_voter_keys(voters@)[k2] == voters@[k2].0);
            }
            assert forall|i: int| 0 <= i < supports@.len() implies targets@.contains(
                (#[trigger] supports@[i]).0,
            ) by {
                assert(supports@[i].0 == winners@[i]);
                assert(winners@[i] == result.winners@[i].0);
                let k = choose|k: int|
                    0 <= k < targets@.len() && targets@[k] == result.winners@[i].0;
                assert(targets@[k] == supports@[i].0);
            }
        }
        Ok(supports)
    }

    /// This provider never has an election pending: it runs on the fly.
    pub fn ongoing() -> (r: bool)
        ensures
            r == false,
    {
        false
    }
}

} // verus!
