//! The boundary to the NPoS election primitives: sequential Phragmen,
//! stake normalization, and edge reduction. Each call is deterministic in
//! its arguments, so its content is given a name over the arguments'
//! content that the callers' contracts can share.

use vstd::prelude::*;
use crate::types::{
    ElectionResult, ExtendedBalance, NposError, RatioAssignment, BackedAssignment,
    spec_backed_views, spec_backed_whos, spec_ratio_views, spec_ratio_whos, spec_voter_views,
};
use crate::snapshot::{spec_distinct_keys, spec_stake_of, spec_voter_keys};

verus! {

#[verifier::external_type_specification]
#[verifier::external_body]
pub struct ExNposCrateError(sp_npos_elections::Error);

/// Relies on sp_npos_elections::Error only as a value to translate into the
/// library's own error type, one variant at a time.
#[verifier::external_body]
fn npos_error_from(e: sp_npos_elections::Error) -> NposError {
    match e {
        sp_npos_elections::Error::SolutionWeightOverflow => NposError::SolutionWeightOverflow,
        sp_npos_elections::Error::SolutionTargetOverflow => NposError::SolutionTargetOverflow,
        sp_npos_elections::Error::SolutionInvalidIndex => NposError::SolutionInvalidIndex,
        sp_npos_elections::Error::ArithmeticError => NposError::ArithmeticError,
        sp_npos_elections::Error::InvalidSupportEdge => NposError::InvalidSupportEdge,
        _ => NposError::Other,
    }
}

/// The exact sum of the stakes of one distribution.
pub open spec fn spec_stake_sum(dist: Seq<(u64, u128)>) -> int
    decreases dist.len(),
{
    if dist.len() == 0 {
        0
    } else {
        spec_stake_sum(dist.drop_last()) + dist.last().1
    }
}

/// Every nonempty distribution of `s` carries exactly its voter's snapshot
/// stake.
pub open spec fn spec_staked_conserves(
    s: Seq<BackedAssignment>,
    voters: Seq<(u64, u64, Vec<u64>)>,
) -> bool {
    forall|i: int|
        0 <= i < s.len() && (#[trigger] s[i]).distribution@.len() > 0 ==> spec_stake_sum(
            s[i].distribution@,
        ) == spec_stake_of(voters, s[i].who)
}

/// What the sequential-Phragmen run returns: a function of the election
/// inputs' content and the balancing iteration count alone.
pub uninterp spec fn phragmen_of(
    to_elect: int,
    targets: Seq<u64>,
    voters: Seq<(u64, u64, Seq<u64>)>,
    balancing: Option<usize>,
) -> Result<ElectionResult, NposError>;

/// Relies on sp_npos_elections::seq_phragmen: elects up to `to_elect`
/// targets and assigns each voter's stake to them as ratios, deterministic
/// in the snapshot and the balancing iteration count. Winners are drawn
/// from the target list; each input voter yields at most one assignment,
/// in input order, so distinct voters give distinct assignments; an
/// assignment's distribution holds at most one edge per target, and only
/// targets drawn from the target list, since votes to outsiders are
/// dropped on setup. The body only converts: per-thing ratios become
/// their raw parts.
#[verifier::external_body]
pub fn seq_phragmen_call(
    to_elect: usize,
    targets: &Vec<u64>,
    voters: &Vec<(u64, u64, Vec<u64>)>,
    balancing: Option<usize>,
) -> (r: Result<ElectionResult, NposError>)
    ensures
        r == phragmen_of(to_elect as int, targets@, spec_voter_views(voters@), balancing),
        r matches Ok(res) ==> res.winners@.len() <= to_elect,
        r matches Ok(res) ==> res.assignments@.len() <= voters@.len(),
        r matches Ok(res) ==> forall|i: int|
            0 <= i < res.winners@.len() ==> exists|k: int|
                0 <= k < targets@.len() && targets@[k] == (#[trigger] res.winners@[i]).0,
        r matches Ok(res) ==> forall|i: int|
            0 <= i < res.assignments@.len() ==> exists|k: int|
                0 <= k < voters@.len() && (#[trigger] voters@[k]).0 == (
                #[trigger] res.assignments@[i]).who,
        r matches Ok(res) ==> forall|i: int, j: int|
            0 <= i < res.assignments@.len() && 0 <= j < res.assignments@[i].distribution@.len()
                ==> targets@.contains((#[trigger] res.assignments@[i].distribution@[j]).0),
        r matches Ok(res) ==> forall|i: int|
            0 <= i < res.assignments@.len() ==> (#[trigger] res.assignments@[i]).distribution@.len()
                <= targets@.len(),
        r matches Ok(res) ==> spec_distinct_keys(spec_voter_keys(voters@))
            ==> spec_distinct_keys(spec_ratio_whos(res.assignments@)),
{
    let config = balancing.map(|iterations| sp_npos_elections::BalancingConfig { iterations, tolerance: 0 });
    sp_npos_elections::seq_phragmen::<u64, sp_arithmetic::Perbill>(to_elect, targets.clone(), voters.clone(), config)
        .map(|res| ElectionResult {
            winners: res.winners,
            assignments: res.assignments.into_iter().map(|a| RatioAssignment {
                who: a.who,
                distribution: a.distribution.into_iter().map(|(t, p)| (t, sp_arithmetic::PerThing::deconstruct(p))).collect(),
            }).collect(),
        })
        .map_err(npos_error_from)
}

/// What the ratio-to-staked conversion returns: a function of the ratio
/// assignments' content and the voter snapshot's content alone.
pub uninterp spec fn staked_norm_of(
    ratio: Seq<(u64, Seq<(u64, u32)>)>,
    voters: Seq<(u64, u64, Seq<u64>)>,
) -> Result<Vec<BackedAssignment>, NposError>;

/// Relies on sp_npos_elections::assignment_ratio_to_staked_normalized:
/// scales each voter's ratio distribution by that voter's snapshot stake
/// and normalizes the total to exactly that stake (an empty result
/// distribution stays empty instead). Zero-ratio edges are dropped and no
/// edge is added; every surviving edge keeps a target that the input
/// distribution of the same voter already had. The body only converts, and
/// the stake closure it hands over calls this crate's own verified lookup.
#[verifier::external_body]
pub fn ratio_to_staked_normalized(
    ratio: &Vec<RatioAssignment>,
    voters: &Vec<(u64, u64, Vec<u64>)>,
) -> (r: Result<Vec<BackedAssignment>, NposError>)
    ensures
        r == staked_norm_of(spec_ratio_views(ratio@), spec_voter_views(voters@)),
        r matches Ok(s) ==> s@.len() == ratio@.len(),
        r matches Ok(s) ==> forall|i: int|
            0 <= i < s@.len() ==> (#[trigger] s@[i]).who == ratio@[i].who,
        r matches Ok(s) ==> forall|i: int|
            0 <= i < s@.len() ==> (#[trigger] s@[i]).distribution@.len()
                <= ratio@[i].distribution@.len(),
        r matches Ok(s) ==> spec_staked_conserves(s@, voters@),
        r matches Ok(s) ==> forall|i: int, j: int|
            0 <= i < s@.len() && 0 <= j < s@[i].distribution@.len() ==> exists|k: int|
                0 <= k < ratio@[i].distribution@.len() && (
                #[trigger] ratio@[i].distribution@[k]).0 == (
                #[trigger] s@[i].distribution@[j]).0,
{
    let stake_fn = |w: &u64| crate::snapshot::stake_of(voters, *w);
    let converted = ratio.iter().map(|a| sp_npos_elections::Assignment {
        who: a.who,
        distribution: a.distribution.iter().map(|&(t, p)| (t, sp_arithmetic::Perbill::from_parts(p))).collect(),
    }).collect();
    match sp_npos_elections::assignment_ratio_to_staked_normalized(converted, &stake_fn) {
        Ok(s) => Ok(s.into_iter().map(|sa| BackedAssignment { who: sa.who, distribution: sa.distribution }).collect()),
        Err(e) => Err(npos_error_from(e)),
    }
}

/// What the edge reduction returns: a function of the staked assignments'
/// content alone.
pub uninterp spec fn reduce_of(staked: Seq<(u64, Seq<(u64, u128)>)>) -> Vec<BackedAssignment>;

/// Relies on sp_npos_elections::reduce: removes redundant equal-stake
/// cycles without changing any voter's total, deterministic in its input.
/// It edits edges in place, removing but never adding them, and neither
/// adds, removes nor reorders the per-voter entries. The reduction
/// strictly assumes that every `who` is unique and panics otherwise, so
/// callers must keep duplicates out. The body only converts field by
/// field.
#[verifier::external_body]
pub fn reduce_solution(staked: &Vec<BackedAssignment>) -> (r: Vec<BackedAssignment>)
    requires
        spec_distinct_keys(spec_backed_whos(staked@)),
    ensures
        r == reduce_of(spec_backed_views(staked@)),
        r@.len() == staked@.len(),
        forall|i: int| 0 <= i < r@.len() ==> (#[trigger] r@[i]).who == staked@[i].who,
        forall|i: int|
            0 <= i < r@.len() ==> (#[trigger] r@[i]).distribution@.len()
                <= staked@[i].distribution@.len(),
{
    let mut converted: Vec<sp_npos_elections::StakedAssignment<u64>> = staked.iter()
        .map(|sa| sp_npos_elections::StakedAssignment { who: sa.who, distribution: sa.distribution.clone() }).collect();
    sp_npos_elections::reduce(&mut converted);
    converted.into_iter().map(|sa| BackedAssignment { who: sa.who, distribution: sa.distribution }).collect()
}

/// What the staked-to-ratio conversion returns: a function of the staked
/// assignments' content alone.
pub uninterp spec fn ratio_norm_of(staked: Seq<(u64, Seq<(u64, u128)>)>) -> Result<
    Vec<RatioAssignment>,
    NposError,
>;

/// Relies on sp_npos_elections::assignment_staked_to_ratio_normalized:
/// turns absolute stakes back into ratios of each voter's total and
/// normalizes them to sum to one. Edges may be dropped but never added;
/// every surviving edge keeps a target that the input distribution of the
/// same voter already had. The body only converts field by field.
#[verifier::external_body]
pub fn staked_to_ratio_normalized(staked: &Vec<BackedAssignment>) -> (r: Result<
    Vec<RatioAssignment>,
    NposError,
>)
    ensures
        r == ratio_norm_of(spec_backed_views(staked@)),
        r matches Ok(a) ==> a@.len() == staked@.len(),
        r matches Ok(a) ==> forall|i: int|
            0 <= i < a@.len() ==> (#[trigger] a@[i]).who == staked@[i].who,
        r matches Ok(a) ==> forall|i: int|
            0 <= i < a@.len() ==> (#[trigger] a@[i]).distribution@.len()
                <= staked@[i].distribution@.len(),
{
    let converted: Vec<sp_npos_elections::StakedAssignment<u64>> = staked.iter()
        .map(|sa| sp_npos_elections::StakedAssignment { who: sa.who, distribution: sa.distribution.clone() }).collect();
    match sp_npos_elections::assignment_staked_to_ratio_normalized::<u64, sp_arithmetic::Perbill>(converted) {
        Ok(a) => Ok(a.into_iter().map(|x| RatioAssignment {
            who: x.who,
            distribution: x.distribution.into_iter().map(|(t, p)| (t, sp_arithmetic::PerThing::deconstruct(p))).collect(),
        }).collect()),
        Err(e) => Err(npos_error_from(e)),
    }
}

} // verus!
