//! The kitty registry: creation, breeding and transfer.

use crate::genome::{blake2_128_of, combine, combined, random_value, seed_payload};
use crate::ledger::Ledger;
use vstd::hash_map::HashMapWithView;
use vstd::prelude::*;

verus! {

/// An account.
pub type AccountId = u64;

/// An amount of currency.
pub type Balance = u128;

/// A kitty's identifier.
pub type KittyIndex = u32;

broadcast use vstd::std_specs::hash::group_hash_axioms;

/// The identifier that the registry starts allocating from.
#[allow(non_snake_case)]
pub fn GetDefaultValue() -> (r: KittyIndex)
    ensures
        r == 0,
{
    0
}

/// A kitty: its immutable genome.
#[derive(Clone, Copy, Debug, PartialEq, Eq)]
pub struct Kitty(pub [u8; 16]);

/// What went wrong in a call; a failed call changes nothing.
#[derive(Clone, Copy, Debug, PartialEq, Eq, Structural)]
pub enum Error {
    /// The referenced kitty does not exist.
    InvalidKittyId,
    /// The identifier space is used up.
    KittyIdOverflow,
    /// The caller does not own the referenced kitty.
    NotOwner,
    /// Breeding was asked of one kitty with itself.
    SameKittyId,
    /// Declared for trading with oneself; no call returns it.
    NoBuySelf,
    /// Declared for buying an unlisted kitty; no call returns it.
    NotForSale,
    /// The free balance does not cover the stake.
    NotEnoughBalance,
    /// The receiving inventory is full.
    OwnTooManyKitties,
}

/// What a successful call announces.
#[derive(Clone, Copy, Debug, PartialEq, Eq)]
pub enum Event {
    /// Owner, identifier and genome of a new kitty.
    KittyCreated(AccountId, KittyIndex, Kitty),
    /// Owner, identifier and genome of a bred kitty.
    KittyBred(AccountId, KittyIndex, Kitty),
    /// Previous owner, new owner and identifier of a transferred kitty.
    KittyTransferred(AccountId, AccountId, KittyIndex),
}

/// The registry's parameters.
#[derive(Clone, Copy, Debug, PartialEq, Eq, Structural)]
pub struct Config {
    /// The stake reserved for each kitty that an account owns.
    pub kitty_price: Balance,
    /// Identifiers are allocated below this bound.
    pub max_kitty_id: KittyIndex,
    /// How many kitties one account may own.
    pub max_owned: u32,
}

/// The registry: kitties, their owners, each owner's inventory in order of
/// receipt, and the balances that back them.
pub struct Pallet {
    config: Config,
    next_kitty_id: KittyIndex,
    kitties: HashMapWithView<KittyIndex, Kitty>,
    kitty_owner: HashMapWithView<KittyIndex, AccountId>,
    kitties_shop: HashMapWithView<KittyIndex, Option<Balance>>,
    all_kitties: HashMapWithView<AccountId, Vec<KittyIndex>>,
    currency: Ledger,
    events: Vec<Event>,
}

impl Pallet {
    /// The registry's parameters.
    pub closed spec fn conf(&self) -> Config {
        self.config
    }

    /// The identifier that the next kitty gets.
    pub closed spec fn next_id(&self) -> KittyIndex {
        self.next_kitty_id
    }

    /// The kitty under each identifier.
    pub closed spec fn kitty_map(&self) -> Map<KittyIndex, Kitty> {
        self.kitties@
    }

    /// The owner of each kitty.
    pub closed spec fn owner_map(&self) -> Map<KittyIndex, AccountId> {
        self.kitty_owner@
    }

    /// The listing price slot of each kitty; no call reads or writes it.
    pub closed spec fn listing_map(&self) -> Map<KittyIndex, Option<Balance>> {
        self.kitties_shop@
    }

    /// The kitties that `who` owns, in the order they came to it.
    pub closed spec fn inventory(&self, who: AccountId) -> Seq<KittyIndex> {
        if self.all_kitties@.contains_key(who) {
            self.all_kitties@[who]@
        } else {
            Seq::empty()
        }
    }

    /// The free balance of `who`.
    pub closed spec fn free_of(&self, who: AccountId) -> Balance {
        self.currency.free_of(who)
    }

    /// The reserved balance of `who`.
    pub closed spec fn reserved_of(&self, who: AccountId) -> Balance {
        self.currency.reserved_of(who)
    }

    /// The events announced so far, oldest first.
    pub closed spec fn event_log(&self) -> Seq<Event> {
        self.events@
    }

    /// Identifiers below `next_id` are exactly those in use.
    pub open spec fn ids_allocated(&self) -> bool {
        &&& self.next_id() <= self.conf().max_kitty_id
        &&& forall|i: KittyIndex| #[trigger] self.kitty_map().contains_key(i) <==> i < self.next_id()
        &&& forall|i: KittyIndex| #[trigger] self.owner_map().contains_key(i) <==> self.kitty_map().contains_key(i)
    }

    /// An id is in an account's inventory exactly when that account owns it.
    pub open spec fn ownership_dual(&self) -> bool {
        forall|a: AccountId, x: KittyIndex|
            #![trigger self.inventory(a).contains(x)]
            #![trigger self.inventory(a), self.owner_map()[x]]
            self.inventory(a).contains(x) <==> (self.owner_map().contains_key(x) && self.owner_map()[x] == a)
    }

    /// Inventories hold no repeats and stay within capacity.
    pub open spec fn inventories_bounded(&self) -> bool {
        forall|a: AccountId|
            #![trigger self.inventory(a)]
            self.inventory(a).no_duplicates() && self.inventory(a).len() <= self.conf().max_owned
    }

    /// Each account's reserve is one stake per kitty that it owns.
    pub open spec fn stake_consistent(&self) -> bool {
        forall|a: AccountId|
            #![trigger self.reserved_of(a)]
            self.reserved_of(a) == self.conf().kitty_price * self.inventory(a).len()
    }

    /// The registry's invariant.
    pub closed spec fn wf(&self) -> bool {
        &&& self.currency.wf()
        &&& self.ids_allocated()
        &&& self.ownership_dual()
        &&& self.inventories_bounded()
        &&& self.stake_consistent()
    }

    /// The accounts other than those in `who` keep their balances and inventories.
    pub open spec fn others_unchanged(&self, old: &Pallet, who: Set<AccountId>) -> bool {
        forall|a: AccountId|
            #![trigger self.inventory(a)]
            #![trigger self.free_of(a)]
            #![trigger self.reserved_of(a)]
            !who.contains(a) ==> self.inventory(a) == old.inventory(a) && self.free_of(a) == old.free_of(a)
                && self.reserved_of(a) == old.reserved_of(a)
    }

    /// `self` is `old` after kitty `id` with genome `dna` was created for `who`.
    pub open spec fn created(&self, old: &Pallet, who: AccountId, id: KittyIndex, dna: [u8; 16]) -> bool {
        &&& id == old.next_id()
        &&& !old.kitty_map().contains_key(id)
        &&& self.next_id() == old.next_id() + 1
        &&& self.conf() == old.conf()
        &&& self.kitty_map() == old.kitty_map().insert(id, Kitty(dna))
        &&& self.owner_map() == old.owner_map().insert(id, who)
        &&& self.listing_map() == old.listing_map()
        &&& self.inventory(who) == old.inventory(who).push(id)
        &&& self.free_of(who) == old.free_of(who) - old.conf().kitty_price
        &&& self.reserved_of(who) == old.reserved_of(who) + old.conf().kitty_price
        &&& self.others_unchanged(old, set![who])
        &&& self.event_log() == old.event_log().push(Event::KittyCreated(who, id, Kitty(dna)))
    }

    /// Whether a new kitty can be created for `who`, and if not, why.
    pub open spec fn creation_outcome(&self, who: AccountId) -> Result<(), Error> {
        if self.free_of(who) < self.conf().kitty_price {
            Err(Error::NotEnoughBalance)
        } else if self.next_id() >= self.conf().max_kitty_id {
            Err(Error::KittyIdOverflow)
        } else if self.inventory(who).len() >= self.conf().max_owned {
            Err(Error::OwnTooManyKitties)
        } else {
            Ok(())
        }
    }

    /// A registry with no kitties, no balances and no events.
    pub fn new(config: Config) -> (r: Pallet)
        ensures
            r.wf(),
            r.conf() == config,
            r.next_id() == 0,
            r.kitty_map().is_empty(),
            r.owner_map().is_empty(),
            r.listing_map().is_empty(),
            r.event_log().len() == 0,
            forall|a: AccountId| #[trigger] r.inventory(a).len() == 0,
            forall|a: AccountId| #[trigger] r.free_of(a) == 0,
            forall|a: AccountId| #[trigger] r.reserved_of(a) == 0,
    {
        let r = Pallet {
            config,
            next_kitty_id: GetDefaultValue(),
            kitties: HashMapWithView::new(),
            kitty_owner: HashMapWithView::new(),
            kitties_shop: HashMapWithView::new(),
            all_kitties: HashMapWithView::new(),
            currency: Ledger::new(),
            events: Vec::new(),
        };
        assert(r.kitty_map() =~= Map::empty());
        assert(r.owner_map() =~= Map::empty());
        assert forall|a: AccountId| #[trigger] r.inventory(a) == Seq::<KittyIndex>::empty() by {}
        assert forall|a: AccountId| #![trigger r.reserved_of(a)]
            r.reserved_of(a) == r.conf().kitty_price * r.inventory(a).len() by {
            assert(r.inventory(a).len() == 0);
        }
        r
    }

    /// The identifier that the next kitty would get; fails with
    /// `KittyIdOverflow` once the identifier space is used up.
    pub fn get_next_id(&self) -> (r: Result<KittyIndex, Error>)
        ensures
            self.next_id() < self.conf().max_kitty_id ==> r == Ok::<KittyIndex, Error>(self.next_id()),
            self.next_id() >= self.conf().max_kitty_id ==> r == Err::<KittyIndex, Error>(Error::KittyIdOverflow),
    {
        if self.next_kitty_id >= self.config.max_kitty_id {
            Err(Error::KittyIdOverflow)
        } else {
            Ok(self.next_kitty_id)
        }
    }

    /// The kitty under `kitty_id`; fails with `InvalidKittyId` where there is none.
    pub fn get_kitty(&self, kitty_id: KittyIndex) -> (r: Result<Kitty, Error>)
        ensures
            self.kitty_map().contains_key(kitty_id) ==> r == Ok::<Kitty, Error>(self.kitty_map()[kitty_id]),
            !self.kitty_map().contains_key(kitty_id) ==> r == Err::<Kitty, Error>(Error::InvalidKittyId),
    {
        match self.kitties.get(&kitty_id) {
            Some(k) => Ok(*k),
            None => Err(Error::InvalidKittyId),
        }
    }

    fn inventory_len(&self, who: AccountId) -> (r: usize)
        ensures
            r == self.inventory(who).len(),
    {
        match self.all_kitties.get(&who) {
            Some(v) => v.len(),
            None => 0,
        }
    }

    /// Reserves the stake of `who` and records a new kitty with genome `dna`
    /// under the next identifier, owned by `who`.
    pub fn new_kitty_with_stake(&mut self, who: AccountId, dna: [u8; 16]) -> (r: Result<KittyIndex, Error>)
        requires
            old(self).wf(),
        ensures
            final(self).wf(),
            r is Ok <==> old(self).creation_outcome(who) is Ok,
            r is Err ==> r == Err::<KittyIndex, Error>(old(self).creation_outcome(who)->Err_0) && *final(self) == *old(self),
            r matches Ok(id) ==> final(self).created(old(self), who, id, dna),
    {
        let price = self.config.kitty_price;
        if self.currency.free_balance(who) < price {
            return Err(Error::NotEnoughBalance);
        }
        let id = match self.get_next_id() {
            Ok(v) => v,
            Err(e) => {
                return Err(e);
            },
        };
        if self.inventory_len(who) >= self.config.max_owned as usize {
            return Err(Error::OwnTooManyKitties);
        }
        let ghost pre = *self;
        let _ = self.currency.reserve(who, price);
        self.kitties.insert(id, Kitty(dna));
        self.kitty_owner.insert(id, who);
        self.next_kitty_id = id + 1;
        let mut list = match self.all_kitties.remove(&who) {
            Some(v) => v,
            None => Vec::new(),
        };
        list.push(id);
        self.all_kitties.insert(who, list);
        self.events.push(Event::KittyCreated(who, id, Kitty(dna)));
        proof {
            assert(self.all_kitties@.remove(who) =~= pre.all_kitties@.remove(who));
            self.lemma_created_wf(&pre, who, id, dna);
        }
        Ok(id)
    }

    /// Whether `sender` can hand kitty `kitty_id` to `new_owner`, and if not, why.
    pub open spec fn transfer_outcome(&self, sender: AccountId, kitty_id: KittyIndex, new_owner: AccountId) -> Result<(), Error> {
        if !self.kitty_map().contains_key(kitty_id) {
            Err(Error::InvalidKittyId)
        } else if !self.owner_map().contains_key(kitty_id) || self.owner_map()[kitty_id] != sender {
            Err(Error::NotOwner)
        } else if self.free_of(new_owner) < self.conf().kitty_price {
            Err(Error::NotEnoughBalance)
        } else if new_owner != sender && self.inventory(new_owner).len() >= self.conf().max_owned {
            Err(Error::OwnTooManyKitties)
        } else {
            Ok(())
        }
    }

    /// `self` is `old` after `sender` handed kitty `id` to `new_owner`: the
    /// stake moved with it and the id left the sender's inventory for the
    /// end of the new owner's.
    pub open spec fn transferred(&self, old: &Pallet, sender: AccountId, id: KittyIndex, new_owner: AccountId) -> bool {
        let p = old.conf().kitty_price;
        &&& self.next_id() == old.next_id()
        &&& self.conf() == old.conf()
        &&& self.kitty_map() == old.kitty_map()
        &&& self.owner_map() == old.owner_map().insert(id, new_owner)
        &&& self.listing_map() == old.listing_map()
        &&& exists|i: int|
            0 <= i < old.inventory(sender).len() && old.inventory(sender)[i] == id && self.inventory(sender)
                == if new_owner == sender {
                old.inventory(sender).remove(i).push(id)
            } else {
                old.inventory(sender).remove(i)
            }
        &&& new_owner != sender ==> self.inventory(new_owner) == old.inventory(new_owner).push(id)
        &&& new_owner != sender ==> {
            &&& self.free_of(sender) == old.free_of(sender) + p
            &&& self.reserved_of(sender) == old.reserved_of(sender) - p
            &&& self.free_of(new_owner) == old.free_of(new_owner) - p
            &&& self.reserved_of(new_owner) == old.reserved_of(new_owner) + p
        }
        &&& new_owner == sender ==> self.free_of(sender) == old.free_of(sender) && self.reserved_of(sender)
            == old.reserved_of(sender)
        &&& self.others_unchanged(old, set![sender, new_owner])
        &&& self.event_log() == old.event_log().push(Event::KittyTransferred(sender, new_owner, id))
    }

    /// Hands kitty `kitty_id` from `sender` to `new_owner`, moving its stake.
    pub fn transfer(&mut self, sender: AccountId, kitty_id: KittyIndex, new_owner: AccountId) -> (r: Result<(), Error>)
        requires
            old(self).wf(),
        ensures
            final(self).wf(),
            r == old(self).transfer_outcome(sender, kitty_id, new_owner),
            r is Err ==> *final(self) == *old(self),
            r is Ok ==> final(self).transferred(old(self), sender, kitty_id, new_owner),
    {
        if !self.kitties.contains_key(&kitty_id) {
            return Err(Error::InvalidKittyId);
        }
        match self.kitty_owner.get(&kitty_id) {
            Some(o) => {
                if *o != sender {
                    return Err(Error::NotOwner);
                }
            },
            None => {
                return Err(Error::NotOwner);
            },
        }
        let price = self.config.kitty_price;
        if self.currency.free_balance(new_owner) < price {
            return Err(Error::NotEnoughBalance);
        }
        if new_owner != sender && self.inventory_len(new_owner) >= self.config.max_owned as usize {
            return Err(Error::OwnTooManyKitties);
        }
        let ghost pre = *self;
        proof {
            assert(pre.inventory(sender).contains(kitty_id));
            assert(pre.reserved_of(sender) == price * pre.inventory(sender).len());
            lemma_mul_at_least(price as int, pre.inventory(sender).len() as int);
        }
        let _ = self.currency.reserve(new_owner, price);
        self.currency.unreserve(sender, price);
        self.kitty_owner.insert(kitty_id, new_owner);
        let mut from = match self.all_kitties.remove(&sender) {
            Some(v) => v,
            None => {
                proof {
                    assert(pre.inventory(sender).contains(kitty_id));
                }
                Vec::new()
            },
        };
        let idx = match position_of(&from, kitty_id) {
            Some(i) => i,
            None => {
                proof {
                    assert(pre.inventory(sender).contains(kitty_id));
                }
                0
            },
        };
        from.remove(idx);
        self.all_kitties.insert(sender, from);
        let mut to = match self.all_kitties.remove(&new_owner) {
            Some(v) => v,
            None => Vec::new(),
        };
        to.push(kitty_id);
        self.all_kitties.insert(new_owner, to);
        self.events.push(Event::KittyTransferred(sender, new_owner, kitty_id));
        proof {
            assert forall|a: AccountId| a != sender && a != new_owner implies #[trigger] self.inventory(a)
                == pre.inventory(a) by {
                if pre.all_kitties@.contains_key(a) {
                    assert(self.all_kitties@[a] == pre.all_kitties@[a]);
                }
            }
            if new_owner != sender {
                assert(self.inventory(new_owner) == pre.inventory(new_owner).push(kitty_id));
            }
            self.lemma_transferred_wf(&pre, sender, kitty_id, new_owner, idx as int);
        }
        Ok(())
    }

    /// Creates a kitty for `who` whose genome is drawn from the entropy
    /// `seed` and the extrinsic `index`, staking its price.
    pub fn create(&mut self, who: AccountId, seed: &[u8; 32], index: Option<u32>) -> (r: Result<KittyIndex, Error>)
        requires
            old(self).wf(),
        ensures
            final(self).wf(),
            r is Ok <==> old(self).creation_outcome(who) is Ok,
            r is Err ==> r == Err::<KittyIndex, Error>(old(self).creation_outcome(who)->Err_0) && *final(self) == *old(self),
            r matches Ok(id) ==> final(self).created(old(self), who, id, final(self).kitty_map()[id].0)
                && final(self).kitty_map()[id].0@ == blake2_128_of(seed_payload(seed@, who, index)),
    {
        let dna = random_value(seed, who, index);
        self.new_kitty_with_stake(who, dna)
    }

    /// Whether `who` can breed kitties `kitty_id_1` and `kitty_id_2`, and if not, why.
    pub open spec fn breeding_outcome(&self, who: AccountId, kitty_id_1: KittyIndex, kitty_id_2: KittyIndex) -> Result<(), Error> {
        if kitty_id_1 == kitty_id_2 {
            Err(Error::SameKittyId)
        } else if !self.kitty_map().contains_key(kitty_id_1) || !self.kitty_map().contains_key(kitty_id_2) {
            Err(Error::InvalidKittyId)
        } else {
            self.creation_outcome(who)
        }
    }

    /// Breeds kitties `kitty_id_1` and `kitty_id_2` under the selection mask
    /// `selector` into a new kitty owned by `who`, staking its price.
    pub fn breed_with_selector(
        &mut self,
        who: AccountId,
        kitty_id_1: KittyIndex,
        kitty_id_2: KittyIndex,
        selector: [u8; 16],
    ) -> (r: Result<KittyIndex, Error>)
        requires
            old(self).wf(),
        ensures
            final(self).wf(),
            r is Ok <==> old(self).breeding_outcome(who, kitty_id_1, kitty_id_2) is Ok,
            r is Err ==> r == Err::<KittyIndex, Error>(old(self).breeding_outcome(who, kitty_id_1, kitty_id_2)->Err_0)
                && *final(self) == *old(self),
            r matches Ok(id) ==> final(self).created(old(self), who, id, final(self).kitty_map()[id].0)
                && final(self).kitty_map()[id].0@ == combined(
                old(self).kitty_map()[kitty_id_1].0@,
                old(self).kitty_map()[kitty_id_2].0@,
                selector@,
            ),
    {
        if kitty_id_1 == kitty_id_2 {
            return Err(Error::SameKittyId);
        }
        let kitty_1 = match self.get_kitty(kitty_id_1) {
            Ok(k) => k,
            Err(_) => {
                return Err(Error::InvalidKittyId);
            },
        };
        let kitty_2 = match self.get_kitty(kitty_id_2) {
            Ok(k) => k,
            Err(_) => {
                return Err(Error::InvalidKittyId);
            },
        };
        let new_dna = combine(&kitty_1.0, &kitty_2.0, &selector);
        self.new_kitty_with_stake(who, new_dna)
    }

    /// Breeds kitties `kitty_id_1` and `kitty_id_2` into a new kitty owned by
    /// `who`, the mask drawn from the entropy `seed` and the extrinsic `index`.
    pub fn breed(
        &mut self,
        who: AccountId,
        kitty_id_1: KittyIndex,
        kitty_id_2: KittyIndex,
        seed: &[u8; 32],
        index: Option<u32>,
    ) -> (r: Result<KittyIndex, Error>)
        requires
            old(self).wf(),
        ensures
            final(self).wf(),
            r is Ok <==> old(self).breeding_outcome(who, kitty_id_1, kitty_id_2) is Ok,
            r is Err ==> r == Err::<KittyIndex, Error>(old(self).breeding_outcome(who, kitty_id_1, kitty_id_2)->Err_0)
                && *final(self) == *old(self),
            r matches Ok(id) ==> final(self).created(old(self), who, id, final(self).kitty_map()[id].0)
                && final(self).kitty_map()[id].0@ == combined(
                old(self).kitty_map()[kitty_id_1].0@,
                old(self).kitty_map()[kitty_id_2].0@,
                blake2_128_of(seed_payload(seed@, who, index)),
            ),
    {
        let selector = random_value(seed, who, index);
        self.breed_with_selector(who, kitty_id_1, kitty_id_2, selector)
    }

    /// Sets the free balance of `who`; refused (false, nothing changed) where
    /// free and reserved balance together would overflow.
    pub fn set_free_balance(&mut self, who: AccountId, amount: Balance) -> (ok: bool)
        requires
            old(self).wf(),
        ensures
            final(self).wf(),
            ok == (amount + old(self).reserved_of(who) <= Balance::MAX),
            ok ==> final(self).free_of(who) == amount,
            !ok ==> *final(self) == *old(self),
            final(self).reserved_of(who) == old(self).reserved_of(who),
            final(self).others_unchanged(old(self), set![who]),
            final(self).inventory(who) == old(self).inventory(who),
            final(self).conf() == old(self).conf(),
            final(self).next_id() == old(self).next_id(),
            final(self).kitty_map() == old(self).kitty_map(),
            final(self).owner_map() == old(self).owner_map(),
            final(self).listing_map() == old(self).listing_map(),
            final(self).event_log() == old(self).event_log(),
    {
        if amount > Balance::MAX - self.currency.reserved_balance(who) {
            return false;
        }
        let ghost pre = *self;
        let ok = self.currency.set_free_balance(who, amount);
        proof {
            assert(self.kitty_map() == pre.kitty_map() && self.owner_map() == pre.owner_map());
            assert(self.ids_allocated());
            assert(self.all_kitties == pre.all_kitties);
            assert forall|a: AccountId| #[trigger] self.inventory(a) == pre.inventory(a) by {}
            assert(self.ownership_dual());
            assert(self.inventories_bounded());
            assert forall|a: AccountId| #![trigger self.reserved_of(a)]
                self.reserved_of(a) == self.conf().kitty_price * self.inventory(a).len() by {
                assert(pre.reserved_of(a) == pre.conf().kitty_price * pre.inventory(a).len());
            }
        }
        ok
    }

    /// The identifier that the next kitty gets.
    pub fn next_kitty_id(&self) -> (r: KittyIndex)
        ensures
            r == self.next_id(),
    {
        self.next_kitty_id
    }

    /// The kitty under `kitty_id`, if any.
    pub fn kitties(&self, kitty_id: KittyIndex) -> (r: Option<Kitty>)
        ensures
            r == if self.kitty_map().contains_key(kitty_id) { Some(self.kitty_map()[kitty_id]) } else { None },
    {
        match self.kitties.get(&kitty_id) {
            Some(k) => Some(*k),
            None => None,
        }
    }

    /// The owner of kitty `kitty_id`, if any.
    pub fn kitty_owner(&self, kitty_id: KittyIndex) -> (r: Option<AccountId>)
        ensures
            r == if self.owner_map().contains_key(kitty_id) { Some(self.owner_map()[kitty_id]) } else { None },
    {
        match self.kitty_owner.get(&kitty_id) {
            Some(a) => Some(*a),
            None => None,
        }
    }

    /// The listing price of kitty `kitty_id`; `None` where it is not for sale.
    pub fn kitties_list_for_sales(&self, kitty_id: KittyIndex) -> (r: Option<Balance>)
        ensures
            r == if self.listing_map().contains_key(kitty_id) { self.listing_map()[kitty_id] } else { None },
    {
        match self.kitties_shop.get(&kitty_id) {
            Some(p) => *p,
            None => None,
        }
    }

    /// The kitties that `who` owns, in the order they came to it.
    pub fn all_kitties(&self, who: AccountId) -> (r: Vec<KittyIndex>)
        ensures
            r@ == self.inventory(who),
    {
        let mut out: Vec<KittyIndex> = Vec::new();
        match self.all_kitties.get(&who) {
            Some(v) => {
                let mut i: usize = 0;
                while i < v.len()
                    invariant
                        i <= v@.len(),
                        out@ == v@.subrange(0, i as int),
                    decreases v@.len() - i,
                {
                    out.push(v[i]);
                    i += 1;
                    assert(out@ =~= v@.subrange(0, i as int));
                }
                assert(v@.subrange(0, v@.len() as int) =~= v@);
            },
            None => {},
        }
        out
    }

    /// The free balance of `who`.
    pub fn free_balance(&self, who: AccountId) -> (r: Balance)
        ensures
            r == self.free_of(who),
    {
        self.currency.free_balance(who)
    }

    /// The reserved balance of `who`.
    pub fn reserved_balance(&self, who: AccountId) -> (r: Balance)
        ensures
            r == self.reserved_of(who),
    {
        self.currency.reserved_balance(who)
    }

    /// The events announced so far, oldest first.
    pub fn events(&self) -> (r: &Vec<Event>)
        ensures
            r@ == self.event_log(),
    {
        &self.events
    }

    /// The registry's parameters.
    pub fn config(&self) -> (r: Config)
        ensures
            r == self.conf(),
    {
        self.config
    }

    proof fn lemma_transferred_wf(&self, old: &Pallet, sender: AccountId, id: KittyIndex, new_owner: AccountId, i: int)
        requires
            old.wf(),
            old.transfer_outcome(sender, id, new_owner) is Ok,
            0 <= i < old.inventory(sender).len(),
            old.inventory(sender)[i] == id,
            self.config == old.config,
            self.next_kitty_id == old.next_kitty_id,
            self.kitties@ == old.kitties@,
            self.kitty_owner@ == old.kitty_owner@.insert(id, new_owner),
            self.kitties_shop@ == old.kitties_shop@,
            self.inventory(sender) == if new_owner == sender {
                old.inventory(sender).remove(i).push(id)
            } else {
                old.inventory(sender).remove(i)
            },
            new_owner != sender ==> self.inventory(new_owner) == old.inventory(new_owner).push(id),
            forall|a: AccountId| a != sender && a != new_owner ==> #[trigger] self.inventory(a) == old.inventory(a),
            self.currency.wf(),
            new_owner != sender ==> {
                &&& self.free_of(sender) == old.free_of(sender) + old.config.kitty_price
                &&& self.reserved_of(sender) == old.reserved_of(sender) - old.config.kitty_price
                &&& self.free_of(new_owner) == old.free_of(new_owner) - old.config.kitty_price
                &&& self.reserved_of(new_owner) == old.reserved_of(new_owner) + old.config.kitty_price
            },
            new_owner == sender ==> self.free_of(sender) == old.free_of(sender) && self.reserved_of(sender)
                == old.reserved_of(sender),
            forall|a: AccountId|
                #![trigger self.free_of(a)]
                #![trigger self.reserved_of(a)]
                a != sender && a != new_owner ==> self.free_of(a) == old.free_of(a) && self.reserved_of(a)
                    == old.reserved_of(a),
            self.events@ == old.events@.push(Event::KittyTransferred(sender, new_owner, id)),
        ensures
            self.wf(),
            self.transferred(old, sender, id, new_owner),
    {
        let p = old.config.kitty_price;
        let s0 = old.inventory(sender);
        let n = s0.len();
        assert(s0.contains(id));
        assert(!s0.remove(i).contains(id)) by {
            lemma_remove_unique(s0, i, id);
        }
        assert(self.ids_allocated());
        assert forall|a: AccountId, x: KittyIndex|
            #![trigger self.inventory(a).contains(x)]
            #![trigger self.inventory(a), self.owner_map()[x]]
            self.inventory(a).contains(x) <==> (self.owner_map().contains_key(x) && self.owner_map()[x] == a) by {
            assert(old.inventory(a).contains(x) <==> (old.owner_map().contains_key(x) && old.owner_map()[x] == a));
            if a == sender {
                lemma_remove_unique(s0, i, x);
                if new_owner == sender {
                    lemma_push_contains(s0.remove(i), id, x);
                }
            } else if a == new_owner {
                lemma_push_contains(old.inventory(new_owner), id, x);
            }
        }
        assert forall|a: AccountId| #![trigger self.inventory(a)]
            self.inventory(a).no_duplicates() && self.inventory(a).len() <= self.conf().max_owned by {
            assert(old.inventory(a).no_duplicates() && old.inventory(a).len() <= old.conf().max_owned);
            if a == sender {
                lemma_remove_unique(s0, i, id);
                if new_owner == sender {
                    lemma_push_no_duplicates(s0.remove(i), id);
                }
            } else if a == new_owner {
                assert(!old.inventory(new_owner).contains(id));
                lemma_push_no_duplicates(old.inventory(new_owner), id);
            }
        }
        assert forall|a: AccountId| #![trigger self.reserved_of(a)]
            self.reserved_of(a) == self.conf().kitty_price * self.inventory(a).len() by {
            let m = old.inventory(a).len();
            assert(old.reserved_of(a) == p * m);
            assert(p * (m + 1) == p * m + p) by (nonlinear_arith);
            if m >= 1 {
                assert(p * (m - 1) == p * m - p) by (nonlinear_arith) requires m >= 1;
            }
            if a == sender {
                lemma_remove_unique(s0, i, id);
            }
        }
        assert(exists|k: int|
            0 <= k < old.inventory(sender).len() && old.inventory(sender)[k] == id && self.inventory(sender)
                == if new_owner == sender {
                old.inventory(sender).remove(k).push(id)
            } else {
                old.inventory(sender).remove(k)
            });
    }

    proof fn lemma_created_wf(&self, old: &Pallet, who: AccountId, id: KittyIndex, dna: [u8; 16])
        requires
            old.wf(),
            old.creation_outcome(who) is Ok,
            id == old.next_id(),
            self.config == old.config,
            self.next_kitty_id == id + 1,
            self.kitties@ == old.kitties@.insert(id, Kitty(dna)),
            self.kitty_owner@ == old.kitty_owner@.insert(id, who),
            self.kitties_shop@ == old.kitties_shop@,
            self.all_kitties@.contains_key(who),
            self.all_kitties@.remove(who) == old.all_kitties@.remove(who),
            self.all_kitties@[who]@ == old.inventory(who).push(id),
            self.currency.wf(),
            self.currency.free_of(who) == old.currency.free_of(who) - old.config.kitty_price,
            self.currency.reserved_of(who) == old.currency.reserved_of(who) + old.config.kitty_price,
            self.currency.others_unchanged(&old.currency, who),
            self.events@ == old.events@.push(Event::KittyCreated(who, id, Kitty(dna))),
        ensures
            self.wf(),
            self.created(old, who, id, dna),
    {
        let p = old.config.kitty_price;
        let n = old.inventory(who).len();
        assert(!old.kitty_map().contains_key(id));
        assert(!old.inventory(who).contains(id));
        assert forall|a: AccountId| a != who implies #[trigger] self.inventory(a) == old.inventory(a) by {
            assert(old.all_kitties@.remove(who).contains_key(a) == old.all_kitties@.contains_key(a));
            assert(self.all_kitties@.remove(who).contains_key(a) == self.all_kitties@.contains_key(a));
            if old.all_kitties@.contains_key(a) {
                assert(old.all_kitties@.remove(who)[a] == old.all_kitties@[a]);
                assert(self.all_kitties@.remove(who)[a] == self.all_kitties@[a]);
            }
        }
        assert(old.reserved_of(who) == p * n);
        assert(self.ids_allocated());
        assert forall|a: AccountId, x: KittyIndex|
            #![trigger self.inventory(a).contains(x)]
            #![trigger self.inventory(a), self.owner_map()[x]]
            self.inventory(a).contains(x) <==> (self.owner_map().contains_key(x) && self.owner_map()[x] == a) by {
            if a == who {
                lemma_push_contains(old.inventory(who), id, x);
            }
            if x == id && a != who {
                assert(!old.inventory(a).contains(id));
            }
        }
        assert forall|a: AccountId| #![trigger self.inventory(a)]
            self.inventory(a).no_duplicates() && self.inventory(a).len() <= self.conf().max_owned by {
            if a == who {
                lemma_push_no_duplicates(old.inventory(who), id);
            }
        }
        assert(p * (n + 1) == p * n + p) by (nonlinear_arith);
        assert forall|a: AccountId| #![trigger self.reserved_of(a)]
            self.reserved_of(a) == self.conf().kitty_price * self.inventory(a).len() by {
            if a != who {
                assert(old.reserved_of(a) == p * old.inventory(a).len());
            }
        }
    }
}

/// Identifiers are allocated in increasing order without reuse: a kitty
/// created from a valid registry takes the next identifier, which no kitty
/// held before and which exceeds every identifier in use, and the counter
/// moves on by one.
pub proof fn lemma_allocation_monotonic(before: &Pallet, after: &Pallet, who: AccountId, id: KittyIndex, dna: [u8; 16])
    requires
        before.wf(),
        after.created(before, who, id, dna),
    ensures
        id == before.next_id(),
        after.next_id() == id + 1,
        !before.kitty_map().contains_key(id),
        forall|j: KittyIndex| #[trigger] before.kitty_map().contains_key(j) ==> j < id,
        forall|j: KittyIndex| #[trigger] after.kitty_map().contains_key(j) <==> j <= id,
{
}

/// In a valid registry each account's reserved balance is the stake price
/// times the number of kitties in its inventory.
pub proof fn lemma_stake_inventory_consistency(p: &Pallet, who: AccountId)
    requires
        p.wf(),
    ensures
        p.reserved_of(who) == p.conf().kitty_price * p.inventory(who).len(),
{
}

/// In a valid registry an id is in an account's inventory exactly when the
/// account owns it.
pub proof fn lemma_ownership_inventory_duality(p: &Pallet, who: AccountId, id: KittyIndex)
    requires
        p.wf(),
    ensures
        p.inventory(who).contains(id) <==> (p.owner_map().contains_key(id) && p.owner_map()[id] == who),
{
}

/// An account whose inventory is full can receive no kitty: creation,
/// breeding and transfer to it all fail with `OwnTooManyKitties` once every
/// earlier check has passed.
pub proof fn lemma_capacity_enforced(p: &Pallet, who: AccountId, sender: AccountId, id: KittyIndex, parent_1: KittyIndex, parent_2: KittyIndex)
    requires
        p.wf(),
        p.inventory(who).len() == p.conf().max_owned,
    ensures
        !(p.creation_outcome(who) is Ok),
        !(p.breeding_outcome(who, parent_1, parent_2) is Ok),
        sender != who ==> !(p.transfer_outcome(sender, id, who) is Ok),
        p.free_of(who) >= p.conf().kitty_price && p.next_id() < p.conf().max_kitty_id
            ==> p.creation_outcome(who) == Err::<(), Error>(Error::OwnTooManyKitties),
{
}

/// One stake per kitty is at least one stake once a kitty is owned.
proof fn lemma_mul_at_least(p: int, n: int)
    requires
        p >= 0,
        n >= 1,
    ensures
        p * n >= p,
{
    assert(p * n >= p * 1) by (nonlinear_arith)
        requires
            p >= 0,
            n >= 1,
    ;
}

/// Where `id` sits in `list`, if anywhere.
fn position_of(list: &Vec<KittyIndex>, id: KittyIndex) -> (r: Option<usize>)
    ensures
        match r {
            Some(i) => i < list@.len() && list@[i as int] == id,
            None => !list@.contains(id),
        },
{
    let mut i: usize = 0;
    while i < list.len()
        invariant
            i <= list@.len(),
            forall|j: int| 0 <= j < i ==> list@[j] != id,
        decreases list@.len() - i,
    {
        if list[i] == id {
            return Some(i);
        }
        i += 1;
    }
    None
}

/// Removing the one occurrence of `v` takes exactly `v` out of a sequence
/// without repeats, and leaves it without repeats.
proof fn lemma_remove_unique(s: Seq<KittyIndex>, i: int, x: KittyIndex)
    requires
        s.no_duplicates(),
        0 <= i < s.len(),
    ensures
        s.remove(i).contains(x) <==> (s.contains(x) && x != s[i]),
        s.remove(i).no_duplicates(),
        s.remove(i).len() == s.len() - 1,
{
    let t = s.remove(i);
    if t.contains(x) {
        let k = choose|k: int| 0 <= k < t.len() && t[k] == x;
        if k < i {
            assert(s[k] == x);
        } else {
            assert(s[k + 1] == x);
        }
    }
    if s.contains(x) && x != s[i] {
        let k = choose|k: int| 0 <= k < s.len() && s[k] == x;
        if k < i {
            assert(t[k] == x);
        } else {
            assert(k != i);
            assert(t[k - 1] == x);
        }
    }
    assert forall|a: int, b: int| 0 <= a < t.len() && 0 <= b < t.len() && a != b implies t[a] != t[b] by {
        let a2 = if a < i { a } else { a + 1 };
        let b2 = if b < i { b } else { b + 1 };
        assert(t[a] == s[a2] && t[b] == s[b2]);
    }
}

/// Pushing `v` adds exactly `v` to what a sequence contains.
proof fn lemma_push_contains(s: Seq<KittyIndex>, v: KittyIndex, x: KittyIndex)
    ensures
        s.push(v).contains(x) <==> (s.contains(x) || x == v),
{
    if s.contains(x) {
        let i = choose|i: int| 0 <= i < s.len() && s[i] == x;
        assert(s.push(v)[i] == x);
    }
    if x == v {
        assert(s.push(v)[s.len() as int] == v);
    }
    if s.push(v).contains(x) {
        let i = choose|i: int| 0 <= i < s.push(v).len() && s.push(v)[i] == x;
        if i < s.len() {
            assert(s[i] == x);
        }
    }
}

/// Pushing a new value keeps a sequence free of repeats.
proof fn lemma_push_no_duplicates(s: Seq<KittyIndex>, v: KittyIndex)
    requires
        s.no_duplicates(),
        !s.contains(v),
    ensures
        s.push(v).no_duplicates(),
{
    let t = s.push(v);
    assert forall|i: int, j: int| 0 <= i < t.len() && 0 <= j < t.len() && i != j implies t[i] != t[j] by {
        if i < s.len() && j < s.len() {
            assert(t[i] == s[i] && t[j] == s[j]);
        } else if i < s.len() {
            assert(s[i] == t[i]);
        } else {
            assert(s[j] == t[j]);
        }
    }
}

} // verus!
