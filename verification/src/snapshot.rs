//! Index resolution against the round snapshot: the canonical mapping
//! between account identifiers and the compact indices that solutions are
//! encoded with.

use vstd::prelude::*;
use crate::types::{AccountId, RoundSnapshot, VoteWeight};

verus! {

/// The position of the first occurrence of `who` in `keys`, if any.
pub open spec fn spec_first_index(keys: Seq<u64>, who: u64) -> Option<int>
    decreases keys.len(),
{
    if keys.len() == 0 {
        None
    } else if keys[0] == who {
        Some(0)
    } else {
        match spec_first_index(keys.drop_first(), who) {
            Some(j) => Some(j + 1),
            None => None,
        }
    }
}

/// `spec_first_index` is exactly characterized by a match whose earlier
/// positions do not match, and is `None` exactly when nothing matches.
pub proof fn lemma_first_index_characterization(keys: Seq<u64>, who: u64, i: int)
    requires
        0 <= i < keys.len(),
        keys[i] == who,
        forall|k: int| 0 <= k < i ==> keys[k] != who,
    ensures
        spec_first_index(keys, who) == Some(i),
    decreases keys.len(),
{
    if i == 0 {
    } else {
        assert(keys[0] != who);
        lemma_first_index_characterization(keys.drop_first(), who, i - 1);
    }
}

/// When nothing in `keys` matches, `spec_first_index` is `None`.
pub proof fn lemma_first_index_none(keys: Seq<u64>, who: u64)
    requires
        forall|k: int| 0 <= k < keys.len() ==> keys[k] != who,
    ensures
        spec_first_index(keys, who) is None,
    decreases keys.len(),
{
    if keys.len() > 0 {
        lemma_first_index_none(keys.drop_first(), who);
    }
}

/// Wherever `spec_first_index` points, it points at a match, and nothing
/// before it matches.
pub proof fn lemma_first_index_sound(keys: Seq<u64>, who: u64)
    ensures
        match spec_first_index(keys, who) {
            Some(i) => 0 <= i < keys.len() && keys[i] == who && forall|k: int|
                0 <= k < i ==> keys[k] != who,
            None => forall|k: int| 0 <= k < keys.len() ==> keys[k] != who,
        },
    decreases keys.len(),
{
    if keys.len() > 0 && keys[0] != who {
        let rest = keys.drop_first();
        lemma_first_index_sound(rest, who);
        assert(forall|k: int| 1 <= k < keys.len() ==> keys[k] == #[trigger] rest[k - 1]);
        match spec_first_index(rest, who) {
            Some(j) => {
                assert(spec_first_index(keys, who) == Some(j + 1));
                assert(keys[j + 1] == rest[j]);
                assert forall|k: int| 0 <= k < j + 1 implies keys[k] != who by {
                    if k >= 1 {
                        assert(rest[k - 1] != who);
                        assert(keys[k] == rest[k - 1]);
                    }
                }
            },
            None => {
                assert forall|k: int| 0 <= k < keys.len() implies keys[k] != who by {
                    if k >= 1 {
                        assert(rest[k - 1] != who);
                        assert(keys[k] == rest[k - 1]);
                    }
                }
            },
        }
    }
}

/// The identifiers of a voter sequence, in order.
pub open spec fn spec_voter_keys(voters: Seq<(AccountId, VoteWeight, Vec<AccountId>)>) -> Seq<u64> {
    voters.map_values(|v: (AccountId, VoteWeight, Vec<AccountId>)| v.0)
}

/// The compact index of the voter `who` in the snapshot, if any.
pub fn voter_index(
    voters: &Vec<(AccountId, VoteWeight, Vec<AccountId>)>,
    who: AccountId,
) -> (r: Option<u32>)
    requires
        voters@.len() <= u32::MAX,
    ensures
        match r {
            Some(i) => spec_first_index(spec_voter_keys(voters@), who) == Some(i as int),
            None => spec_first_index(spec_voter_keys(voters@), who) is None,
        },
{
    let ghost keys = spec_voter_keys(voters@);
    let mut i: usize = 0;
    while i < voters.len()
        invariant
            i <= voters@.len(),
            voters@.len() <= u32::MAX,
            keys == spec_voter_keys(voters@),
            forall|k: int| 0 <= k < i ==> keys[k] != who,
        decreases voters@.len() - i,
    {
        if voters[i].0 == who {
            proof {
                lemma_first_index_characterization(keys, who, i as int);
            }
            return Some(i as u32);
        }
        i = i + 1;
    }
    proof {
        lemma_first_index_none(keys, who);
    }
    None
}

/// The compact index of the target `who` in the snapshot, if any.
pub fn target_index(targets: &Vec<AccountId>, who: AccountId) -> (r: Option<u16>)
    requires
        targets@.len() <= u16::MAX,
    ensures
        match r {
            Some(i) => spec_first_index(targets@, who) == Some(i as int),
            None => spec_first_index(targets@, who) is None,
        },
{
    let mut i: usize = 0;
    while i < targets.len()
        invariant
            i <= targets@.len(),
            targets@.len() <= u16::MAX,
            forall|k: int| 0 <= k < i ==> targets@[k] != who,
        decreases targets@.len() - i,
    {
        if targets[i] == who {
            proof {
                lemma_first_index_characterization(targets@, who, i as int);
            }
            return Some(i as u16);
        }
        i = i + 1;
    }
    proof {
        lemma_first_index_none(targets@, who);
    }
    None
}

/// The account at the given voter index of the snapshot, if in range.
pub fn voter_at(
    voters: &Vec<(AccountId, VoteWeight, Vec<AccountId>)>,
    index: u32,
) -> (r: Option<AccountId>)
    ensures
        r == (if (index as int) < voters@.len() {
            Some(voters@[index as int].0)
        } else {
            None::<AccountId>
        }),
{
    if (index as usize) < voters.len() {
        Some(voters[index as usize].0)
    } else {
        None
    }
}

/// The account at the given target index of the snapshot, if in range.
pub fn target_at(targets: &Vec<AccountId>, index: u16) -> (r: Option<AccountId>)
    ensures
        r == (if (index as int) < targets@.len() {
            Some(targets@[index as int])
        } else {
            None::<AccountId>
        }),
{
    if (index as usize) < targets.len() {
        Some(targets[index as usize])
    } else {
        None
    }
}

/// The stake of the first snapshot entry of `who`, or zero when `who` is not
/// in the snapshot.
pub open spec fn spec_stake_of(
    voters: Seq<(AccountId, VoteWeight, Vec<AccountId>)>,
    who: AccountId,
) -> VoteWeight {
    match spec_first_index(spec_voter_keys(voters), who) {
        Some(i) => voters[i].1,
        None => 0,
    }
}

/// Look up the stake of `who` in the snapshot; an absent voter weighs zero.
pub fn stake_of(voters: &Vec<(AccountId, VoteWeight, Vec<AccountId>)>, who: AccountId) -> (r:
    VoteWeight)
    ensures
        r == spec_stake_of(voters@, who),
{
    let ghost keys = spec_voter_keys(voters@);
    let mut i: usize = 0;
    while i < voters.len()
        invariant
            i <= voters@.len(),
            keys == spec_voter_keys(voters@),
            forall|k: int| 0 <= k < i ==> keys[k] != who,
        decreases voters@.len() - i,
    {
        if voters[i].0 == who {
            proof {
                lemma_first_index_characterization(keys, who, i as int);
            }
            return voters[i].1;
        }
        i = i + 1;
    }
    proof {
        lemma_first_index_none(keys, who);
    }
    0
}

/// Whether a list of accounts holds `x`.
pub fn contains_account(v: &Vec<AccountId>, x: AccountId) -> (r: bool)
    ensures
        r == v@.contains(x),
{
    let mut i: usize = 0;
    while i < v.len()
        invariant
            i <= v@.len(),
            forall|k: int| 0 <= k < i ==> v@[k] != x,
        decreases v@.len() - i,
    {
        if v[i] == x {
            return true;
        }
        i = i + 1;
    }
    false
}

/// No identifier occurs twice in `keys`.
pub open spec fn spec_distinct_keys(keys: Seq<u64>) -> bool {
    forall|i: int, j: int| 0 <= i < j < keys.len() ==> keys[i] != keys[j]
}

/// In a list without duplicates, the first index of any member is its own
/// position.
pub proof fn lemma_first_index_of_distinct(keys: Seq<u64>, p: int)
    requires
        spec_distinct_keys(keys),
        0 <= p < keys.len(),
    ensures
        spec_first_index(keys, keys[p]) == Some(p),
{
    lemma_first_index_characterization(keys, keys[p], p);
}

/// Well-formedness of a round snapshot: every index fits the compact
/// encoding's index types, and each voter appears once.
pub open spec fn spec_snapshot_wf(s: RoundSnapshot) -> bool {
    &&& s.voters@.len() <= u32::MAX
    &&& s.targets@.len() <= u16::MAX
    &&& spec_distinct_keys(spec_voter_keys(s.voters@))
}

} // verus!
