//! Reservable balances: the stake that backs each owned kitty.

use crate::pallet::{AccountId, Balance, Error};
use vstd::hash_map::HashMapWithView;
use vstd::prelude::*;

verus! {

broadcast use vstd::std_specs::hash::group_hash_axioms;

/// Free and reserved balance of each account; an absent entry is zero.
pub struct Ledger {
    free: HashMapWithView<AccountId, Balance>,
    reserved: HashMapWithView<AccountId, Balance>,
}

impl Ledger {
    /// The free balance of `who`.
    pub closed spec fn free_of(&self, who: AccountId) -> Balance {
        if self.free@.contains_key(who) {
            self.free@[who]
        } else {
            0
        }
    }

    /// The balance of `who` that is held in reserve.
    pub closed spec fn reserved_of(&self, who: AccountId) -> Balance {
        if self.reserved@.contains_key(who) {
            self.reserved@[who]
        } else {
            0
        }
    }

    /// Every account's free and reserved balance together fit in a `Balance`.
    pub open spec fn wf(&self) -> bool {
        forall|a: AccountId| #[trigger] self.free_of(a) + self.reserved_of(a) <= Balance::MAX
    }

    /// The accounts other than `who` keep their balances from `old`.
    pub open spec fn others_unchanged(&self, old: &Ledger, who: AccountId) -> bool {
        forall|a: AccountId|
            #![trigger self.free_of(a)]
            #![trigger self.reserved_of(a)]
            a != who ==> self.free_of(a) == old.free_of(a) && self.reserved_of(a) == old.reserved_of(a)
    }

    /// An empty ledger.
    pub fn new() -> (r: Ledger)
        ensures
            r.wf(),
            forall|a: AccountId| #[trigger] r.free_of(a) == 0,
            forall|a: AccountId| #[trigger] r.reserved_of(a) == 0,
    {
        Ledger { free: HashMapWithView::new(), reserved: HashMapWithView::new() }
    }

    /// Returns the free balance of `who`.
    pub fn free_balance(&self, who: AccountId) -> (r: Balance)
        ensures
            r == self.free_of(who),
    {
        match self.free.get(&who) {
            Some(v) => *v,
            None => 0,
        }
    }

    /// Returns the reserved balance of `who`.
    pub fn reserved_balance(&self, who: AccountId) -> (r: Balance)
        ensures
            r == self.reserved_of(who),
    {
        match self.reserved.get(&who) {
            Some(v) => *v,
            None => 0,
        }
    }

    /// Sets the free balance of `who` to `amount`; refused (returning false,
    /// nothing changed) where free and reserved together would overflow.
    pub fn set_free_balance(&mut self, who: AccountId, amount: Balance) -> (ok: bool)
        requires
            old(self).wf(),
        ensures
            final(self).wf(),
            ok == (amount + old(self).reserved_of(who) <= Balance::MAX),
            ok ==> final(self).free_of(who) == amount,
            !ok ==> final(self).free_of(who) == old(self).free_of(who),
            final(self).reserved_of(who) == old(self).reserved_of(who),
            final(self).others_unchanged(old(self), who),
    {
        let r = self.reserved_balance(who);
        if amount > Balance::MAX - r {
            return false;
        }
        self.free.insert(who, amount);
        assert forall|a: AccountId| #[trigger] self.free_of(a) + self.reserved_of(a) <= Balance::MAX by {
            if a != who {
                assert(old(self).free_of(a) + old(self).reserved_of(a) <= Balance::MAX);
            }
        }
        true
    }

    /// Moves `amount` of `who`'s free balance into reserve; fails with
    /// `NotEnoughBalance`, changing nothing, where the free balance is short.
    pub fn reserve(&mut self, who: AccountId, amount: Balance) -> (r: Result<(), Error>)
        requires
            old(self).wf(),
        ensures
            final(self).wf(),
            r is Ok <==> amount <= old(self).free_of(who),
            r is Err ==> r == Err::<(), Error>(Error::NotEnoughBalance) && *final(self) == *old(self),
            r is Ok ==> final(self).free_of(who) == old(self).free_of(who) - amount
                && final(self).reserved_of(who) == old(self).reserved_of(who) + amount,
            final(self).others_unchanged(old(self), who),
    {
        let f = self.free_balance(who);
        if f < amount {
            return Err(Error::NotEnoughBalance);
        }
        let rs = self.reserved_balance(who);
        self.free.insert(who, f - amount);
        self.reserved.insert(who, rs + amount);
        assert forall|a: AccountId| #[trigger] self.free_of(a) + self.reserved_of(a) <= Balance::MAX by {
            if a != who {
                assert(old(self).free_of(a) + old(self).reserved_of(a) <= Balance::MAX);
            }
        }
        Ok(())
    }

    /// Returns `amount` of `who`'s reserved balance to the free balance.
    pub fn unreserve(&mut self, who: AccountId, amount: Balance)
        requires
            old(self).wf(),
            amount <= old(self).reserved_of(who),
        ensures
            final(self).wf(),
            final(self).free_of(who) == old(self).free_of(who) + amount,
            final(self).reserved_of(who) == old(self).reserved_of(who) - amount,
            final(self).others_unchanged(old(self), who),
    {
        let f = self.free_balance(who);
        let rs = self.reserved_balance(who);
        self.free.insert(who, f + amount);
        self.reserved.insert(who, rs - amount);
        assert forall|a: AccountId| #[trigger] self.free_of(a) + self.reserved_of(a) <= Balance::MAX by {
            if a != who {
                assert(old(self).free_of(a) + old(self).reserved_of(a) <= Balance::MAX);
            }
        }
    }
}

} // verus!
