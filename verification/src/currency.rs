//! The in-memory stand-in for the host's currency: free balances, one
//! entry per live reservation, and monotone counters for slashed deposits
//! and minted rewards.

use vstd::prelude::*;
use crate::types::{AccountId, Balance};
use crate::score::{sat_add, sat_add_spec};
use crate::snapshot::{
    lemma_first_index_none, lemma_first_index_characterization, spec_first_index,
};

verus! {

/// The identifiers of a balance list, in order.
pub open spec fn spec_balance_keys(accounts: Seq<(AccountId, Balance)>) -> Seq<u64> {
    accounts.map_values(|a: (AccountId, Balance)| a.0)
}

/// Whether `who` holds at least `amount` of free balance.
pub open spec fn spec_can_pay(free: Seq<(AccountId, Balance)>, who: AccountId, amount: Balance) -> bool {
    match spec_first_index(spec_balance_keys(free), who) {
        Some(i) => free[i].1 >= amount,
        None => false,
    }
}

/// The free balances after `amount` left `who`'s account (meaningful when
/// `who` can pay).
pub open spec fn spec_debit(free: Seq<(AccountId, Balance)>, who: AccountId, amount: Balance) -> Seq<(AccountId, Balance)> {
    match spec_first_index(spec_balance_keys(free), who) {
        Some(i) => free.update(i, (who, (free[i].1 - amount) as u128)),
        None => free,
    }
}

/// The free balances after `amount` was credited to `who`, saturating; a
/// new account appears when none exists.
pub open spec fn spec_credit(free: Seq<(AccountId, Balance)>, who: AccountId, amount: Balance) -> Seq<(AccountId, Balance)> {
    match spec_first_index(spec_balance_keys(free), who) {
        Some(i) => free.update(i, (who, sat_add_spec(free[i].1, amount))),
        None => free.push((who, amount)),
    }
}

/// The host currency, modeled: free balances, live reservations (one entry
/// per reserve that has not yet been unreserved or slashed), and the two
/// monotone counters that the slash and reward sinks have consumed.
#[derive(Clone, PartialEq, Debug)]
pub struct Currency {
    /// Free balance per account.
    pub free: Vec<(AccountId, Balance)>,
    /// One entry per live reservation: who, and the reserved amount.
    pub reserved: Vec<(AccountId, Balance)>,
    /// Total slashed so far, saturating.
    pub slashed: Balance,
    /// Total rewards minted so far, saturating.
    pub rewarded: Balance,
}

impl Currency {
    /// Move `amount` from `who`'s free balance into a new reservation.
    /// Fails, changing nothing, when `who` has no account or not enough
    /// free balance.
    pub fn reserve(&mut self, who: AccountId, amount: Balance) -> (ok: bool)
        ensures
            ok == spec_can_pay(old(self).free@, who, amount),
            ok ==> final(self).free@ == spec_debit(old(self).free@, who, amount) && final(self).reserved@ == old(self).reserved@.push((who, amount)),
            !ok ==> *final(self) == *old(self),
            final(self).slashed == old(self).slashed,
            final(self).rewarded == old(self).rewarded,
    {
        let ghost keys = spec_balance_keys(self.free@);
        let mut i: usize = 0;
        while i < self.free.len()
            invariant
                i <= self.free@.len(),
                *self == *old(self),
                keys == spec_balance_keys(self.free@),
                forall|k: int| 0 <= k < i ==> keys[k] != who,
            decreases self.free@.len() - i,
        {
            if self.free[i].0 == who {
                proof {
                    lemma_first_index_characterization(keys, who, i as int);
                }
                if self.free[i].1 >= amount {
                    let bal = self.free[i].1;
                    self.free.set(i, (who, bal - amount));
                    self.reserved.push((who, amount));
                    return true;
                } else {
                    return false;
                }
            }
            i = i + 1;
        }
        proof {
            lemma_first_index_none(keys, who);
        }
        false
    }

    /// Credit `amount` to `who`'s free balance, saturating; a new account
    /// is created when none exists.
    fn credit_free(&mut self, who: AccountId, amount: Balance)
        ensures
            final(self).free@ == spec_credit(old(self).free@, who, amount),
            final(self).reserved == old(self).reserved,
            final(self).slashed == old(self).slashed,
            final(self).rewarded == old(self).rewarded,
    {
        let ghost keys = spec_balance_keys(self.free@);
        let mut i: usize = 0;
        while i < self.free.len()
            invariant
                i <= self.free@.len(),
                *self == *old(self),
                keys == spec_balance_keys(self.free@),
                forall|k: int| 0 <= k < i ==> keys[k] != who,
            decreases self.free@.len() - i,
        {
            if self.free[i].0 == who {
                proof {
                    lemma_first_index_characterization(keys, who, i as int);
                }
                let bal = sat_add(self.free[i].1, amount);
                self.free.set(i, (who, bal));
                return ;
            }
            i = i + 1;
        }
        proof {
            lemma_first_index_none(keys, who);
        }
        self.free.push((who, amount));
    }

    /// Release the reservation `(who, amount)`, crediting the amount back
    /// to `who`'s free balance. Reports whether such a reservation existed;
    /// nothing changes when it did not.
    pub fn unreserve(&mut self, who: AccountId, amount: Balance) -> (found: bool)
        ensures
            found == old(self).reserved@.contains((who, amount)),
            found ==> exists|i: int|
                0 <= i < old(self).reserved@.len() && old(self).reserved@[i] == (who, amount)
                    && final(self).reserved@ == old(self).reserved@.remove(i),
            found ==> final(self).free@ == spec_credit(old(self).free@, who, amount),
            !found ==> *final(self) == *old(self),
            final(self).slashed == old(self).slashed,
            final(self).rewarded == old(self).rewarded,
    {
        let mut i: usize = 0;
        while i < self.reserved.len()
            invariant
                i <= self.reserved@.len(),
                *self == *old(self),
                forall|k: int| 0 <= k < i ==> old(self).reserved@[k] != (who, amount),
            decreases self.reserved@.len() - i,
        {
            let (w, a) = self.reserved[i];
            if w == who && a == amount {
                self.reserved.remove(i);
                self.credit_free(who, amount);
                return true;
            }
            i = i + 1;
        }
        false
    }

    /// Slash the reservation `(who, amount)` into the slash counter.
    /// Reports whether such a reservation existed; nothing changes when it
    /// did not.
    pub fn slash_reserved(&mut self, who: AccountId, amount: Balance) -> (found: bool)
        ensures
            found == old(self).reserved@.contains((who, amount)),
            found ==> exists|i: int|
                0 <= i < old(self).reserved@.len() && old(self).reserved@[i] == (who, amount)
                    && final(self).reserved@ == old(self).reserved@.remove(i),
            found ==> final(self).slashed == sat_add_spec(old(self).slashed, amount)
                && final(self).free == old(self).free,
            !found ==> *final(self) == *old(self),
            final(self).rewarded == old(self).rewarded,
    {
        let mut i: usize = 0;
        while i < self.reserved.len()
            invariant
                i <= self.reserved@.len(),
                *self == *old(self),
                forall|k: int| 0 <= k < i ==> old(self).reserved@[k] != (who, amount),
            decreases self.reserved@.len() - i,
        {
            let (w, a) = self.reserved[i];
            if w == who && a == amount {
                self.reserved.remove(i);
                self.slashed = sat_add(self.slashed, amount);
                return true;
            }
            i = i + 1;
        }
        false
    }

    /// Mint `amount` into `who`'s free balance and count it as reward.
    pub fn deposit_creating(&mut self, who: AccountId, amount: Balance)
        ensures
            final(self).reserved == old(self).reserved,
            final(self).slashed == old(self).slashed,
            final(self).rewarded == sat_add_spec(old(self).rewarded, amount),
            final(self).free@ == spec_credit(old(self).free@, who, amount),
    {
        self.credit_free(who, amount);
        self.rewarded = sat_add(self.rewarded, amount);
    }
}

} // verus!
