//! The registry of commodities: its storage, its invariants and its operations.
use vstd::prelude::*;

use crate::keyed_map::{has_key, key_index, lemma_has_key, KeyedMap};
use crate::laws::{
    law_burn_keeps_registry, law_force_transfer_keeps_registry, law_lock_keeps_registry,
    law_mint_keeps_registry, law_transfer_keeps_registry, law_unlock_keeps_registry,
};
use crate::list::{id_index, insert_commodity, strictly_sorted, take_id, without_id};
use crate::model::{
    add_commodity, empty_storage, ids_hashed, burn_step, burned, count_down, count_in, count_up, counts_exact,
    force_transfer_step, force_transferred, lemma_add_commodity, lemma_locked_counted,
    lemma_owned_counted, lemma_take_owned, list_len, lock_step, locked, locks_from, mint_step,
    minted, owner_of, registry_ok, transfer_step, transferred, unlock_step, unlocked, value_or_zero,
    Storage,
};
use crate::tally::{
    lemma_value_sum_bound, lemma_value_sum_nonneg, lemma_value_sum_push, lemma_value_sum_update,
    value_sum,
};
use crate::hashing::{commodity_hash, hash_of_info};
use crate::nft::{LockableUniqueAssets, UniqueAssets};
use crate::types::{
    commodities_view, commodity_view, AccountId, Commodity, CommodityId, CommodityInfo,
    CommodityAdmin, CommodityView, Config, DispatchError, Error, Event, Origin,
};

verus! {

/// The commodity lists of a storage map, as mathematical values.
pub open spec fn lists_view(m: Map<AccountId, Vec<Commodity>>) -> Map<AccountId, Seq<CommodityView>> {
    m.map_values(|l: Vec<Commodity>| commodities_view(l@))
}

/// The locked commodities of a storage map, as mathematical values.
pub open spec fn locks_view(m: Map<Seq<u8>, (AccountId, CommodityInfo)>) -> Map<
    Seq<u8>,
    (AccountId, Seq<u8>),
> {
    m.map_values(|e: (AccountId, CommodityInfo)| (e.0, e.1@))
}

/// Every list in the map is sorted.
pub open spec fn all_sorted(m: Map<AccountId, Seq<CommodityView>>) -> bool {
    forall|a: AccountId| #[trigger] m.contains_key(a) ==> strictly_sorted(m[a])
}

/// The stored count of an account, zero where none is stored.
fn stored_count(counts: &KeyedMap<AccountId, u64>, a: AccountId) -> (r: u64)
    requires
        counts.wf(),
    ensures
        r == count_in(counts.map(), a),
{
    match counts.get(&a) {
        Some(c) => *c,
        None => 0,
    }
}

/// Adds one to the stored count of an account.
fn count_up_in(counts: &mut KeyedMap<AccountId, u64>, a: AccountId)
    requires
        old(counts).wf(),
        count_in(old(counts).map(), a) < u64::MAX,
    ensures
        final(counts).wf(),
        final(counts).map() == count_up(old(counts).map(), a),
        value_sum(final(counts).entries@) == value_sum(old(counts).entries@) + 1,
{
    let c = stored_count(counts, a);
    let ghost s = counts.entries@;
    counts.insert(a, c + 1);
    proof {
        if has_key(s, a) {
            lemma_has_key(s, a);
            lemma_value_sum_update(s, key_index(s, a), (a, (c + 1) as u64));
        } else {
            lemma_value_sum_push(s, (a, (c + 1) as u64));
        }
    }
}

/// Takes one from the stored count of an account.
fn count_down_in(counts: &mut KeyedMap<AccountId, u64>, a: AccountId)
    requires
        old(counts).wf(),
        count_in(old(counts).map(), a) >= 1,
    ensures
        final(counts).wf(),
        final(counts).map() == count_down(old(counts).map(), a),
        value_sum(final(counts).entries@) == value_sum(old(counts).entries@) - 1,
{
    let c = stored_count(counts, a);
    let ghost s = counts.entries@;
    counts.insert(a, c - 1);
    proof {
        lemma_has_key(s, a);
        lemma_value_sum_update(s, key_index(s, a), (a, (c - 1) as u64));
    }
}

/// Adds a commodity to an account's sorted list, creating the list where there is none.
fn add_to_list(lists: &mut KeyedMap<AccountId, Vec<Commodity>>, a: AccountId, c: Commodity)
    requires
        old(lists).wf(),
        all_sorted(lists_view(old(lists).map())),
    ensures
        final(lists).wf(),
        lists_view(final(lists).map()) == add_commodity(
            lists_view(old(lists).map()),
            a,
            commodity_view(c),
        ),
        all_sorted(lists_view(final(lists).map())),
{
    let ghost m0 = lists_view(lists.map());
    proof {
        lemma_add_commodity(m0, a, commodity_view(c));
    }
    match lists.remove(&a) {
        Some(l) => {
            let mut l = l;
            assert(m0.contains_key(a));
            insert_commodity(&mut l, c);
            lists.insert(a, l);
        },
        None => {
            let mut l: Vec<Commodity> = Vec::new();
            l.push(c);
            assert(commodities_view(l@) =~= seq![commodity_view(c)]);
            lists.insert(a, l);
        },
    }
    assert(lists_view(lists.map()) =~= add_commodity(m0, a, commodity_view(c)));
}

/// Takes the first commodity with identifier `id` out of an account's list.
fn take_from_list(lists: &mut KeyedMap<AccountId, Vec<Commodity>>, a: AccountId, id: &CommodityId) -> (r: Commodity)
    requires
        old(lists).wf(),
        all_sorted(lists_view(old(lists).map())),
        lists_view(old(lists).map()).contains_key(a),
        id_index(lists_view(old(lists).map())[a], id@) >= 0,
    ensures
        final(lists).wf(),
        lists_view(final(lists).map()) == lists_view(old(lists).map()).insert(
            a,
            without_id(lists_view(old(lists).map())[a], id@),
        ),
        all_sorted(lists_view(final(lists).map())),
        commodity_view(r) == lists_view(old(lists).map())[a][id_index(
            lists_view(old(lists).map())[a],
            id@,
        )],
{
    let ghost m0 = lists_view(lists.map());
    match lists.remove(&a) {
        Some(l) => {
            let mut l = l;
            assert(commodities_view(l@) == m0[a]);
            let taken = take_id(&mut l, id);
            lists.insert(a, l);
            assert(lists_view(lists.map()) =~= m0.insert(a, without_id(m0[a], id@)));
            match taken {
                Some(c) => c,
                None => vstd::pervasive::unreached(),
            }
        },
        None => vstd::pervasive::unreached(),
    }
}

/// The registry of commodities.
pub struct Pallet {
    config: Config,
    total: Option<u128>,
    burned: Option<u128>,
    total_for_account: KeyedMap<AccountId, u64>,
    commodities_for_account: KeyedMap<AccountId, Vec<Commodity>>,
    account_for_commodity: KeyedMap<CommodityId, AccountId>,
    locked_commodities: KeyedMap<CommodityId, (AccountId, CommodityInfo)>,
    events: Vec<Event>,
}

impl Pallet {
    /// The storage of the registry.
    pub closed spec fn storage(&self) -> Storage {
        Storage {
            total: self.total,
            burned: self.burned,
            total_for_account: self.total_for_account.map(),
            commodities_for_account: lists_view(self.commodities_for_account.map()),
            account_for_commodity: self.account_for_commodity.map(),
            locked_commodities: locks_view(self.locked_commodities.map()),
        }
    }

    /// The configuration of the registry.
    pub closed spec fn configuration(&self) -> Config {
        self.config
    }

    /// The events deposited so far, oldest first.
    pub closed spec fn deposited(&self) -> Seq<Event> {
        self.events@
    }

    /// The invariants of the registry.
    pub closed spec fn wf(&self) -> bool {
        &&& self.total_for_account.wf()
        &&& self.commodities_for_account.wf()
        &&& self.account_for_commodity.wf()
        &&& self.locked_commodities.wf()
        &&& registry_ok(self.storage(), self.config)
        &&& value_or_zero(self.total) == value_sum(self.total_for_account.entries@)
    }

    /// An empty registry with the given configuration.
    pub fn new(config: Config) -> (p: Self)
        ensures
            p.wf(),
            p.configuration() == config,
            p.storage() == empty_storage(),
            ids_hashed(p.storage()),
            p.deposited() == Seq::<Event>::empty(),
            counts_exact(p.storage()),
    {
        let p = Pallet {
            config,
            total: None,
            burned: None,
            total_for_account: KeyedMap::new(),
            commodities_for_account: KeyedMap::new(),
            account_for_commodity: KeyedMap::new(),
            locked_commodities: KeyedMap::new(),
            events: Vec::new(),
        };
        assert(p.storage().commodities_for_account =~= Map::empty());
        assert(p.storage().total_for_account =~= Map::empty());
        assert(p.storage().account_for_commodity =~= Map::empty());
        assert(p.storage().locked_commodities =~= Map::empty());
        assert(p.events@ =~= Seq::<Event>::empty());
        assert forall|a: AccountId| #[trigger]
            count_in(p.storage().total_for_account, a) == list_len(p.storage(), a) + locks_from(
                p.storage().locked_commodities,
                a,
            ).len() by {
            assert(locks_from(p.storage().locked_commodities, a) =~= Set::<Seq<u8>>::empty());
        }
        assert(p.storage().account_for_commodity.dom() =~= Set::<Seq<u8>>::empty());
        assert(p.storage().locked_commodities.dom() =~= Set::<Seq<u8>>::empty());
        p
    }

    /// Creates the commodity `(id, info)` for `owner`: refused if a commodity
    /// with that identifier exists (owned or locked), if the owner already
    /// owns the maximum number of commodities, or if the maximum number of
    /// commodities already exists. Nothing here checks that `id` is the hash
    /// of `info`: `UniqueAssets::mint_asset` computes it and calls this, and
    /// only then does every stored identifier stay the hash of its info
    /// (`laws::law_steps_keep_hashed_ids`).
    pub fn mint_commodity(&mut self, owner: AccountId, id: CommodityId, info: CommodityInfo) -> (r:
        Result<(), Error>)
        requires
            old(self).wf(),
        ensures
            final(self).wf(),
            (final(self).storage(), r) == mint_step(
                old(self).storage(),
                old(self).configuration(),
                owner,
                id@,
                info@,
            ),
            final(self).configuration() == old(self).configuration(),
            final(self).deposited() == old(self).deposited(),
    {
        let ghost s0 = self.storage();
        if self.account_for_commodity.contains_key(&id) || self.locked_commodities.contains_key(&id) {
            return Err(Error::CommodityExists);
        }
        if stored_count(&self.total_for_account, owner) >= self.config.user_commodity_limit {
            return Err(Error::TooManyCommoditiesForAccount);
        }
        let total = match self.total {
            Some(t) => t,
            None => 0,
        };
        if total >= self.config.commodity_limit {
            return Err(Error::TooManyCommodities);
        }
        self.total = Some(total + 1);
        count_up_in(&mut self.total_for_account, owner);
        add_to_list(&mut self.commodities_for_account, owner, (id, info));
        self.account_for_commodity.insert(id, owner);
        proof {
            assert(self.storage() =~= minted(s0, owner, id@, info@));
            law_mint_keeps_registry(s0, self.config, owner, id@, info@);
        }
        Ok(())
    }

    /// In every state that the registry reaches (`new` establishes `wf`, and
    /// every operation keeps it): each commodity is owned or locked, never
    /// both, and an owned one sits in its owner's list and no other, once;
    /// each account's list is sorted; each lock's account has a list; the
    /// configured limits hold; each account's count is exactly the length of
    /// its list plus the locks taken from it; the total is the number of owned
    /// plus locked commodities; and no account's count is above the total.
    pub proof fn law_registry_invariants(&self)
        requires
            self.wf(),
        ensures
            registry_ok(self.storage(), self.configuration()),
            forall|a: AccountId| #[trigger]
                count_in(self.storage().total_for_account, a) <= value_or_zero(
                    self.storage().total,
                ),
    {
        assert forall|a: AccountId| #[trigger]
            count_in(self.storage().total_for_account, a) <= value_or_zero(self.storage().total) by {
            lemma_value_sum_nonneg(self.total_for_account.entries@);
            if self.total_for_account.map().contains_key(a) {
                lemma_has_key(self.total_for_account.entries@, a);
                lemma_value_sum_bound(
                    self.total_for_account.entries@,
                    key_index(self.total_for_account.entries@, a),
                );
            }
        }
    }

    /// The owner of a commodity, or the default account where it has none.
    fn owner_id(&self, id: &CommodityId) -> (r: AccountId)
        requires
            self.account_for_commodity.wf(),
        ensures
            r == owner_of(self.storage(), id@),
    {
        match self.account_for_commodity.get(id) {
            Some(a) => *a,
            None => 0,
        }
    }

}


/// A stored value, or `None` where none is stored.
pub open spec fn lookup<K, V>(m: Map<K, V>, k: K) -> Option<V> {
    if m.contains_key(k) {
        Some(m[k])
    } else {
        None
    }
}

impl UniqueAssets for Pallet {
    open spec fn well_formed(&self) -> bool {
        self.wf()
    }

    /// The number of commodities that exist, zero where none was ever minted.
    fn total_assets(&self) -> (r: u128)
        ensures
            r == value_or_zero(self.storage().total),
    {
        match self.total {
            Some(t) => t,
            None => 0,
        }
    }

    /// The number of commodities burned, zero where none was ever burned.
    fn burned_assets(&self) -> (r: u128)
        ensures
            r == value_or_zero(self.storage().burned),
    {
        match self.burned {
            Some(b) => b,
            None => 0,
        }
    }

    /// The number of commodities that an account owns, zero where none is stored.
    fn total_assets_for_account(&self, account: &AccountId) -> (r: u64)
        ensures
            r == count_in(self.storage().total_for_account, *account),
    {
        stored_count(&self.total_for_account, *account)
    }

    /// The commodities of an account, empty where it has no list.
    fn assets_for_account(&self, account: &AccountId) -> (r: Vec<Commodity>)
        ensures
            commodities_view(r@) == (if self.storage().commodities_for_account.contains_key(*account) {
                self.storage().commodities_for_account[*account]
            } else {
                Seq::empty()
            }),
    {
        match self.commodities_for_account.get(account) {
            Some(l) => copy_commodities(l),
            None => {
                let r: Vec<Commodity> = Vec::new();
                assert(commodities_view(r@) =~= Seq::empty());
                r
            },
        }
    }

    /// The owner of a commodity, or the default account `0` where it has none.
    fn owner_of(&self, commodity_id: &CommodityId) -> (r: AccountId)
        ensures
            r == owner_of(self.storage(), commodity_id@),
    {
        self.owner_id(commodity_id)
    }

    /// Creates the commodity that `commodity_info` defines for `owner_account`;
    /// its identifier is the hash of the info.
    fn mint_asset(&mut self, owner_account: &AccountId, commodity_info: CommodityInfo) -> (r: Result<
        CommodityId,
        Error,
    >)
        ensures
            (final(self).storage(), match r {
                Ok(_) => Ok(()),
                Err(e) => Err(e),
            }) == mint_step(
                old(self).storage(),
                old(self).configuration(),
                *owner_account,
                commodity_hash(commodity_info@),
                commodity_info@,
            ),
            r matches Ok(id) ==> id@ == commodity_hash(commodity_info@),
            final(self).configuration() == old(self).configuration(),
            final(self).deposited() == old(self).deposited(),
    {
        let commodity_id = hash_of_info(&commodity_info);
        match self.mint_commodity(*owner_account, commodity_id, commodity_info) {
            Ok(()) => Ok(commodity_id),
            Err(e) => Err(e),
        }
    }

    /// Destroys a commodity: refused where it has no owner.
    fn burn_asset(&mut self, commodity_id: &CommodityId) -> (r: Result<(), Error>)
        ensures
            (final(self).storage(), r) == burn_step(old(self).storage(), commodity_id@),
            final(self).configuration() == old(self).configuration(),
            final(self).deposited() == old(self).deposited(),
    {
        let ghost s0 = self.storage();
        let owner = match self.account_for_commodity.get(commodity_id) {
            Some(a) => *a,
            None => {
                return Err(Error::NonexistentCommodity);
            },
        };
        proof {
            lemma_owned_counted(s0, self.config, commodity_id@);
        }
        let total = match self.total {
            Some(t) => t,
            None => 0,
        };
        self.total = Some(total - 1);
        let burned_so_far = match self.burned {
            Some(b) => b,
            None => 0,
        };
        self.burned = Some(
            if burned_so_far == u128::MAX {
                0
            } else {
                burned_so_far + 1
            },
        );
        count_down_in(&mut self.total_for_account, owner);
        let _taken = take_from_list(&mut self.commodities_for_account, owner, commodity_id);
        let _gone = self.account_for_commodity.remove(commodity_id);
        proof {
            assert(self.storage() =~= burned(s0, commodity_id@));
            law_burn_keeps_registry(s0, self.config, commodity_id@);
        }
        Ok(())
    }

    /// Gives a commodity to `dest_account`: refused where it has no owner, or
    /// where the receiver already owns the maximum number of commodities.
    fn transfer_asset(&mut self, dest_account: &AccountId, commodity_id: &CommodityId) -> (r: Result<
        (),
        Error,
    >)
        ensures
            (final(self).storage(), r) == transfer_step(
                old(self).storage(),
                old(self).configuration(),
                *dest_account,
                commodity_id@,
            ),
            final(self).configuration() == old(self).configuration(),
            final(self).deposited() == old(self).deposited(),
    {
        let ghost s0 = self.storage();
        let dest = *dest_account;
        let owner = match self.account_for_commodity.get(commodity_id) {
            Some(a) => *a,
            None => {
                return Err(Error::NonexistentCommodity);
            },
        };
        if stored_count(&self.total_for_account, dest) >= self.config.user_commodity_limit {
            return Err(Error::TooManyCommoditiesForAccount);
        }
        proof {
            lemma_owned_counted(s0, self.config, commodity_id@);
        }
        count_down_in(&mut self.total_for_account, owner);
        count_up_in(&mut self.total_for_account, dest);
        let c = take_from_list(&mut self.commodities_for_account, owner, commodity_id);
        add_to_list(&mut self.commodities_for_account, dest, c);
        self.account_for_commodity.insert(*commodity_id, dest);
        proof {
            assert(self.storage() =~= transferred(s0, dest, commodity_id@));
            law_transfer_keeps_registry(s0, self.config, dest, commodity_id@);
        }
        Ok(())
    }
}

/// A copy of a list of commodities.
fn copy_commodities(l: &Vec<Commodity>) -> (r: Vec<Commodity>)
    ensures
        commodities_view(r@) == commodities_view(l@),
{
    let mut r: Vec<Commodity> = Vec::new();
    let mut i: usize = 0;
    while i < l.len()
        invariant
            i <= l@.len(),
            r@.len() == i,
            commodities_view(r@) == commodities_view(l@).subrange(0, i as int),
        decreases l@.len() - i,
    {
        let c = &l[i];
        let info = c.1.clone();
        assert(info@ =~= c.1@);
        let ghost r0 = r@;
        r.push((c.0, info));
        assert(r@ == r0.push((c.0, info)));
        assert(commodity_view((c.0, info)) == commodity_view(l@[i as int]));
        assert(commodities_view(r@) =~= commodities_view(l@).subrange(0, i + 1)) by {
            assert forall|j: int| 0 <= j < i + 1 implies #[trigger] commodities_view(r@)[j]
                == commodities_view(l@).subrange(0, i + 1)[j] by {
                if j < i {
                    assert(commodities_view(r@)[j] == commodity_view(r0[j]));
                    assert(commodities_view(r0)[j] == commodities_view(l@).subrange(0, i as int)[j]);
                }
            }
        }
        i = i + 1;
    }
    assert(commodities_view(l@).subrange(0, i as int) =~= commodities_view(l@));
    r
}


impl LockableUniqueAssets for Pallet {
    /// Locks a commodity: takes it out of its owner's list and out of the
    /// ownership map, and records the owner and its info; refused where it
    /// has no owner. The owner's count is left as it is.
    fn lock(&mut self, commodity_id: &CommodityId) -> (r: Result<(), Error>)
        ensures
            (final(self).storage(), r) == lock_step(old(self).storage(), commodity_id@),
            final(self).configuration() == old(self).configuration(),
            final(self).deposited() == old(self).deposited(),
    {
        let ghost s0 = self.storage();
        let owner = match self.account_for_commodity.get(commodity_id) {
            Some(a) => *a,
            None => {
                return Err(Error::NonexistentCommodity);
            },
        };
        proof {
            lemma_take_owned(s0, commodity_id@);
        }
        let c = take_from_list(&mut self.commodities_for_account, owner, commodity_id);
        let _gone = self.account_for_commodity.remove(commodity_id);
        let (_id, info) = c;
        self.locked_commodities.insert(*commodity_id, (owner, info));
        proof {
            assert(self.storage() =~= locked(s0, commodity_id@));
            law_lock_keeps_registry(s0, self.config, commodity_id@);
        }
        Ok(())
    }

    /// Gives a locked commodity back to the account it was taken from;
    /// refused where it is not locked.
    fn unlock(&mut self, commodity_id: &CommodityId) -> (r: Result<(), Error>)
        ensures
            (final(self).storage(), r) == unlock_step(old(self).storage(), commodity_id@),
            final(self).configuration() == old(self).configuration(),
            final(self).deposited() == old(self).deposited(),
    {
        let ghost s0 = self.storage();
        match self.locked_commodities.remove(commodity_id) {
            None => {
                assert(self.storage() =~= s0);
                Err(Error::NonexistentCommodity)
            },
            Some(entry) => {
                let (owner, info) = entry;
                if self.commodities_for_account.contains_key(&owner) {
                    add_to_list(&mut self.commodities_for_account, owner, (*commodity_id, info));
                }
                self.account_for_commodity.insert(*commodity_id, owner);
                proof {
                    assert(self.storage() =~= unlocked(s0, commodity_id@));
                    law_unlock_keeps_registry(s0, self.config, commodity_id@);
                }
                Ok(())
            },
        }
    }

    /// Gives a commodity to `dest_account`. One that is not locked is
    /// transferred as usual. A locked one goes from its lock to the receiver,
    /// refused, with nothing changed, where the receiver already owns the
    /// maximum number of commodities.
    fn force_transfer(&mut self, dest_account: &AccountId, commodity_id: &CommodityId) -> (r:
        Result<(), Error>)
        ensures
            (final(self).storage(), r) == force_transfer_step(
                old(self).storage(),
                old(self).configuration(),
                *dest_account,
                commodity_id@,
            ),
            final(self).configuration() == old(self).configuration(),
            final(self).deposited() == old(self).deposited(),
    {
        let ghost s0 = self.storage();
        let dest = *dest_account;
        if !self.locked_commodities.contains_key(commodity_id) {
            return UniqueAssets::transfer_asset(self, dest_account, commodity_id);
        }
        if stored_count(&self.total_for_account, dest) >= self.config.user_commodity_limit {
            return Err(Error::TooManyCommoditiesForAccount);
        }
        proof {
            lemma_locked_counted(s0, self.config, commodity_id@);
        }
        match self.locked_commodities.remove(commodity_id) {
            Some(entry) => {
                let (owner, info) = entry;
                count_down_in(&mut self.total_for_account, owner);
                count_up_in(&mut self.total_for_account, dest);
                add_to_list(&mut self.commodities_for_account, dest, (*commodity_id, info));
                self.account_for_commodity.insert(*commodity_id, dest);
                proof {
                    assert(self.storage() =~= force_transferred(s0, dest, commodity_id@));
                    law_force_transfer_keeps_registry(s0, self.config, dest, commodity_id@);
                }
                Ok(())
            },
            None => vstd::pervasive::unreached(),
        }
    }
}


/// Whether the admin setting lets calls from `origin` mint.
pub open spec fn admits(admin: CommodityAdmin, origin: Origin) -> bool {
    match admin {
        CommodityAdmin::Root => origin == Origin::Root,
        CommodityAdmin::Account(a) => origin == Origin::Signed(a),
    }
}

/// The events after exactly one more was deposited.
pub open spec fn one_more_event(before: Seq<Event>, after: Seq<Event>) -> bool {
    &&& after.len() == before.len() + 1
    &&& after.drop_last() == before
}

/// Checks that a call comes from the admin.
fn ensure_admin(admin: CommodityAdmin, origin: Origin) -> (b: bool)
    ensures
        b == admits(admin, origin),
{
    match admin {
        CommodityAdmin::Root => match origin {
            Origin::Root => true,
            _ => false,
        },
        CommodityAdmin::Account(a) => match origin {
            Origin::Signed(who) => who == a,
            _ => false,
        },
    }
}

impl Pallet {
    /// Adds an event to the deposited ones.
    fn deposit_event(&mut self, event: Event)
        ensures
            final(self).deposited() == old(self).deposited().push(event),
            final(self).storage() == old(self).storage(),
            final(self).configuration() == old(self).configuration(),
            final(self).wf() == old(self).wf(),
    {
        self.events.push(event);
    }

    /// Creates a new commodity from the provided info and makes the specified
    /// account its owner; its identifier is the hash of the info. The call
    /// must come from the commodity admin. Refused if a commodity with that
    /// identifier exists, if the maximum number of commodities already exists,
    /// or if the owner already owns the maximum number. On success a `Minted`
    /// event is deposited. The info's length must fit in a `u32`, as its
    /// encoding for hashing requires.
    pub fn mint(&mut self, origin: Origin, owner_account: AccountId, commodity_info: CommodityInfo) -> (r:
        Result<(), DispatchError>)
        requires
            old(self).wf(),
            commodity_info@.len() <= u32::MAX,
        ensures
            final(self).wf(),
            final(self).configuration() == old(self).configuration(),
            !admits(old(self).configuration().commodity_admin, origin) ==> {
                &&& r == Err::<(), DispatchError>(DispatchError::BadOrigin)
                &&& final(self).storage() == old(self).storage()
                &&& final(self).deposited() == old(self).deposited()
            },
            admits(old(self).configuration().commodity_admin, origin) ==> {
                let step = mint_step(
                    old(self).storage(),
                    old(self).configuration(),
                    owner_account,
                    commodity_hash(commodity_info@),
                    commodity_info@,
                );
                &&& final(self).storage() == step.0
                &&& match step.1 {
                    Ok(()) => {
                        &&& r == Ok::<(), DispatchError>(())
                        &&& one_more_event(old(self).deposited(), final(self).deposited())
                        &&& final(self).deposited().last() matches Event::Minted(id, owner)
                        &&& id@ == commodity_hash(commodity_info@)
                        &&& owner == owner_account
                    },
                    Err(e) => {
                        &&& r == Err::<(), DispatchError>(DispatchError::Module(e))
                        &&& final(self).deposited() == old(self).deposited()
                    },
                }
            },
    {
        if !ensure_admin(self.config.commodity_admin, origin) {
            return Err(DispatchError::BadOrigin);
        }
        match UniqueAssets::mint_asset(self, &owner_account, commodity_info) {
            Ok(commodity_id) => {
                let ghost before = self.deposited();
                self.deposit_event(Event::Minted(commodity_id, owner_account));
                assert(self.deposited().drop_last() =~= before);
                Ok(())
            },
            Err(e) => Err(DispatchError::Module(e)),
        }
    }

    /// Destroys the specified commodity. The call must be signed by the
    /// commodity's owner. On success a `Burned` event is deposited.
    pub fn burn(&mut self, origin: Origin, commodity_id: CommodityId) -> (r: Result<(), DispatchError>)
        requires
            old(self).wf(),
        ensures
            final(self).wf(),
            final(self).configuration() == old(self).configuration(),
            match origin {
                Origin::Signed(who) => if lookup(
                    old(self).storage().account_for_commodity,
                    commodity_id@,
                ) != Some(who) {
                    &&& r == Err::<(), DispatchError>(
                        DispatchError::Module(Error::NotCommodityOwner),
                    )
                    &&& final(self).storage() == old(self).storage()
                    &&& final(self).deposited() == old(self).deposited()
                } else {
                    let step = burn_step(old(self).storage(), commodity_id@);
                    &&& final(self).storage() == step.0
                    &&& match step.1 {
                        Ok(()) => {
                            &&& r == Ok::<(), DispatchError>(())
                            &&& final(self).deposited() == old(self).deposited().push(
                                Event::Burned(commodity_id),
                            )
                        },
                        Err(e) => {
                            &&& r == Err::<(), DispatchError>(DispatchError::Module(e))
                            &&& final(self).deposited() == old(self).deposited()
                        },
                    }
                },
                _ => {
                    &&& r == Err::<(), DispatchError>(DispatchError::BadOrigin)
                    &&& final(self).storage() == old(self).storage()
                    &&& final(self).deposited() == old(self).deposited()
                },
            },
    {
        let who = match origin {
            Origin::Signed(who) => who,
            _ => {
                return Err(DispatchError::BadOrigin);
            },
        };
        match self.account_for_commodity.get(&commodity_id) {
            Some(owner) => {
                if *owner != who {
                    return Err(DispatchError::Module(Error::NotCommodityOwner));
                }
            },
            None => {
                return Err(DispatchError::Module(Error::NotCommodityOwner));
            },
        }
        match UniqueAssets::burn_asset(self, &commodity_id) {
            Ok(()) => {
                self.deposit_event(Event::Burned(commodity_id));
                Ok(())
            },
            Err(e) => Err(DispatchError::Module(e)),
        }
    }

    /// Gives a commodity to a new owner. The call must be signed by the
    /// commodity's owner. Refused if the new owner already owns the maximum
    /// number of commodities. On success a `Transferred` event is deposited.
    pub fn transfer(&mut self, origin: Origin, dest_account: AccountId, commodity_id: CommodityId) -> (r:
        Result<(), DispatchError>)
        requires
            old(self).wf(),
        ensures
            final(self).wf(),
            final(self).configuration() == old(self).configuration(),
            match origin {
                Origin::Signed(who) => if lookup(
                    old(self).storage().account_for_commodity,
                    commodity_id@,
                ) != Some(who) {
                    &&& r == Err::<(), DispatchError>(
                        DispatchError::Module(Error::NotCommodityOwner),
                    )
                    &&& final(self).storage() == old(self).storage()
                    &&& final(self).deposited() == old(self).deposited()
                } else {
                    let step = transfer_step(
                        old(self).storage(),
                        old(self).configuration(),
                        dest_account,
                        commodity_id@,
                    );
                    &&& final(self).storage() == step.0
                    &&& match step.1 {
                        Ok(()) => {
                            &&& r == Ok::<(), DispatchError>(())
                            &&& final(self).deposited() == old(self).deposited().push(
                                Event::Transferred(commodity_id, dest_account),
                            )
                        },
                        Err(e) => {
                            &&& r == Err::<(), DispatchError>(DispatchError::Module(e))
                            &&& final(self).deposited() == old(self).deposited()
                        },
                    }
                },
                _ => {
                    &&& r == Err::<(), DispatchError>(DispatchError::BadOrigin)
                    &&& final(self).storage() == old(self).storage()
                    &&& final(self).deposited() == old(self).deposited()
                },
            },
    {
        let who = match origin {
            Origin::Signed(who) => who,
            _ => {
                return Err(DispatchError::BadOrigin);
            },
        };
        match self.account_for_commodity.get(&commodity_id) {
            Some(owner) => {
                if *owner != who {
                    return Err(DispatchError::Module(Error::NotCommodityOwner));
                }
            },
            None => {
                return Err(DispatchError::Module(Error::NotCommodityOwner));
            },
        }
        match UniqueAssets::transfer_asset(self, &dest_account, &commodity_id) {
            Ok(()) => {
                self.deposit_event(Event::Transferred(commodity_id, dest_account));
                Ok(())
            },
            Err(e) => Err(DispatchError::Module(e)),
        }
    }
}


impl Pallet {
    /// The configuration of the registry.
    pub fn config(&self) -> (c: Config)
        ensures
            c == self.configuration(),
    {
        self.config
    }

    /// The events deposited so far, oldest first.
    pub fn events(&self) -> (r: &Vec<Event>)
        ensures
            r@ == self.deposited(),
    {
        &self.events
    }

    /// The stored number of commodities that exist (minted - burned).
    pub fn total(&self) -> (r: Option<u128>)
        ensures
            r == self.storage().total,
    {
        self.total
    }

    /// The stored number of commodities that have been burned.
    pub fn burned(&self) -> (r: Option<u128>)
        ensures
            r == self.storage().burned,
    {
        self.burned
    }

    /// The stored number of commodities that an account owns.
    pub fn total_for_account(&self, account: AccountId) -> (r: Option<u64>)
        requires
            self.wf(),
        ensures
            r == lookup(self.storage().total_for_account, account),
    {
        match self.total_for_account.get(&account) {
            Some(c) => Some(*c),
            None => None,
        }
    }

    /// The stored list of the commodities that an account owns.
    pub fn commodities_for_account(&self, account: AccountId) -> (r: Option<Vec<Commodity>>)
        requires
            self.wf(),
        ensures
            match r {
                Some(l) => lookup(self.storage().commodities_for_account, account) == Some(
                    commodities_view(l@),
                ),
                None => !self.storage().commodities_for_account.contains_key(account),
            },
    {
        match self.commodities_for_account.get(&account) {
            Some(l) => Some(copy_commodities(l)),
            None => None,
        }
    }

    /// The stored owner of a commodity.
    pub fn account_for_commodity(&self, commodity_id: CommodityId) -> (r: Option<AccountId>)
        requires
            self.wf(),
        ensures
            r == lookup(self.storage().account_for_commodity, commodity_id@),
    {
        match self.account_for_commodity.get(&commodity_id) {
            Some(a) => Some(*a),
            None => None,
        }
    }

    /// The stored lock of a commodity: the account it was taken from, and its info.
    pub fn locked_commodities(&self, commodity_id: CommodityId) -> (r: Option<
        (AccountId, CommodityInfo),
    >)
        requires
            self.wf(),
        ensures
            match r {
                Some(e) => lookup(self.storage().locked_commodities, commodity_id@) == Some(
                    (e.0, e.1@),
                ),
                None => !self.storage().locked_commodities.contains_key(commodity_id@),
            },
    {
        match self.locked_commodities.get(&commodity_id) {
            Some(e) => {
                let info = e.1.clone();
                assert(info@ =~= e.1@);
                Some((e.0, info))
            },
            None => None,
        }
    }
}

} // verus!
