//! The registry's storage as mathematical values, and what each operation does to it.
use vstd::prelude::*;

use crate::list::{
    ids_distinct, lemma_insert_fresh, lemma_remove_distinct, id_index, lemma_id_index, lemma_sorted_insert, lemma_sorted_insert_ids, lemma_without_id_ids,
    lemma_remove_sorted, sorted_insert, strictly_sorted, without_id,
};
use crate::hashing::commodity_hash;
use crate::types::{AccountId, CommodityView, Config, Error};

verus! {

/// The storage of the registry. A key that is absent from a map has no stored
/// value (a storage getter reads it back as `None`).
#[verifier::ext_equal]
pub struct Storage {
    /// The number of commodities that exist (minted - burned).
    pub total: Option<u128>,
    /// The number of commodities that have been burned (wraps around).
    pub burned: Option<u128>,
    /// The number of commodities that each account owns.
    pub total_for_account: Map<AccountId, u64>,
    /// The commodities of each account, sorted by identifier and info.
    pub commodities_for_account: Map<AccountId, Seq<CommodityView>>,
    /// The owner of each commodity, by identifier.
    pub account_for_commodity: Map<Seq<u8>, AccountId>,
    /// The locked commodities: the owner they were taken from, and their info.
    pub locked_commodities: Map<Seq<u8>, (AccountId, Seq<u8>)>,
}

/// A stored count, with an absent entry read as zero.
pub open spec fn count_in(m: Map<AccountId, u64>, a: AccountId) -> int {
    if m.contains_key(a) {
        m[a] as int
    } else {
        0
    }
}

/// A stored optional number, with an absent value read as zero.
pub open spec fn value_or_zero(v: Option<u128>) -> int {
    match v {
        Some(n) => n as int,
        None => 0,
    }
}

/// The owner of a commodity, with the default account `0` where there is none.
pub open spec fn owner_of(s: Storage, id: Seq<u8>) -> AccountId {
    if s.account_for_commodity.contains_key(id) {
        s.account_for_commodity[id]
    } else {
        0
    }
}

/// Adds a commodity to an account's list, creating the list where there is none.
pub open spec fn add_commodity(
    m: Map<AccountId, Seq<CommodityView>>,
    a: AccountId,
    c: CommodityView,
) -> Map<AccountId, Seq<CommodityView>> {
    if m.contains_key(a) {
        m.insert(a, sorted_insert(m[a], c))
    } else {
        m.insert(a, seq![c])
    }
}

/// The commodity with identifier `id` in its owner's list.
pub open spec fn owned_commodity(s: Storage, id: Seq<u8>) -> CommodityView {
    let l = s.commodities_for_account[owner_of(s, id)];
    l[id_index(l, id)]
}

/// Adds one to an account's stored count.
pub open spec fn count_up(m: Map<AccountId, u64>, a: AccountId) -> Map<AccountId, u64> {
    m.insert(a, (count_in(m, a) + 1) as u64)
}

/// Takes one from an account's stored count.
pub open spec fn count_down(m: Map<AccountId, u64>, a: AccountId) -> Map<AccountId, u64> {
    m.insert(a, (count_in(m, a) - 1) as u64)
}

/// Why minting `id` for `owner` is refused, if it is.
pub open spec fn mint_error(s: Storage, config: Config, owner: AccountId, id: Seq<u8>) -> Option<
    Error,
> {
    if s.account_for_commodity.contains_key(id) || s.locked_commodities.contains_key(id) {
        Some(Error::CommodityExists)
    } else if count_in(s.total_for_account, owner) >= config.user_commodity_limit {
        Some(Error::TooManyCommoditiesForAccount)
    } else if value_or_zero(s.total) >= config.commodity_limit {
        Some(Error::TooManyCommodities)
    } else {
        None
    }
}

/// The storage after minting the commodity `(id, info)` for `owner`.
pub open spec fn minted(s: Storage, owner: AccountId, id: Seq<u8>, info: Seq<u8>) -> Storage {
    Storage {
        total: Some((value_or_zero(s.total) + 1) as u128),
        burned: s.burned,
        total_for_account: count_up(s.total_for_account, owner),
        commodities_for_account: add_commodity(s.commodities_for_account, owner, (id, info)),
        account_for_commodity: s.account_for_commodity.insert(id, owner),
        locked_commodities: s.locked_commodities,
    }
}

/// Minting: the new storage and the outcome.
pub open spec fn mint_step(
    s: Storage,
    config: Config,
    owner: AccountId,
    id: Seq<u8>,
    info: Seq<u8>,
) -> (Storage, Result<(), Error>) {
    match mint_error(s, config, owner, id) {
        Some(e) => (s, Err(e)),
        None => (minted(s, owner, id, info), Ok(())),
    }
}

/// Why burning or locking `id` is refused, if it is.
pub open spec fn owned_error(s: Storage, id: Seq<u8>) -> Option<Error> {
    if !s.account_for_commodity.contains_key(id) {
        Some(Error::NonexistentCommodity)
    } else {
        None
    }
}

/// The storage after burning the commodity `id`.
pub open spec fn burned(s: Storage, id: Seq<u8>) -> Storage {
    let owner = owner_of(s, id);
    Storage {
        total: Some((value_or_zero(s.total) - 1) as u128),
        burned: Some(
            if value_or_zero(s.burned) == u128::MAX {
                0u128
            } else {
                (value_or_zero(s.burned) + 1) as u128
            },
        ),
        total_for_account: count_down(s.total_for_account, owner),
        commodities_for_account: s.commodities_for_account.insert(
            owner,
            without_id(s.commodities_for_account[owner], id),
        ),
        account_for_commodity: s.account_for_commodity.remove(id),
        locked_commodities: s.locked_commodities,
    }
}

/// Burning: the new storage and the outcome.
pub open spec fn burn_step(s: Storage, id: Seq<u8>) -> (Storage, Result<(), Error>) {
    match owned_error(s, id) {
        Some(e) => (s, Err(e)),
        None => (burned(s, id), Ok(())),
    }
}

/// Why transferring `id` to `dest` is refused, if it is.
pub open spec fn transfer_error(s: Storage, config: Config, dest: AccountId, id: Seq<u8>) -> Option<
    Error,
> {
    if !s.account_for_commodity.contains_key(id) {
        Some(Error::NonexistentCommodity)
    } else if count_in(s.total_for_account, dest) >= config.user_commodity_limit {
        Some(Error::TooManyCommoditiesForAccount)
    } else {
        None
    }
}

/// The storage after giving the commodity `id` to `dest`.
pub open spec fn transferred(s: Storage, dest: AccountId, id: Seq<u8>) -> Storage {
    let owner = owner_of(s, id);
    let c = owned_commodity(s, id);
    let counts = count_down(s.total_for_account, owner);
    let lists = s.commodities_for_account.insert(
        owner,
        without_id(s.commodities_for_account[owner], id),
    );
    Storage {
        total: s.total,
        burned: s.burned,
        total_for_account: count_up(counts, dest),
        commodities_for_account: add_commodity(lists, dest, c),
        account_for_commodity: s.account_for_commodity.insert(id, dest),
        locked_commodities: s.locked_commodities,
    }
}

/// Transferring: the new storage and the outcome.
pub open spec fn transfer_step(s: Storage, config: Config, dest: AccountId, id: Seq<u8>) -> (
    Storage,
    Result<(), Error>,
) {
    match transfer_error(s, config, dest, id) {
        Some(e) => (s, Err(e)),
        None => (transferred(s, dest, id), Ok(())),
    }
}

/// The storage after locking the commodity `id`.
pub open spec fn locked(s: Storage, id: Seq<u8>) -> Storage {
    let owner = owner_of(s, id);
    let c = owned_commodity(s, id);
    Storage {
        total: s.total,
        burned: s.burned,
        total_for_account: s.total_for_account,
        commodities_for_account: s.commodities_for_account.insert(
            owner,
            without_id(s.commodities_for_account[owner], id),
        ),
        account_for_commodity: s.account_for_commodity.remove(id),
        locked_commodities: s.locked_commodities.insert(id, (owner, c.1)),
    }
}

/// Locking: the new storage and the outcome.
pub open spec fn lock_step(s: Storage, id: Seq<u8>) -> (Storage, Result<(), Error>) {
    match owned_error(s, id) {
        Some(e) => (s, Err(e)),
        None => (locked(s, id), Ok(())),
    }
}

/// The storage after unlocking the commodity `id`.
pub open spec fn unlocked(s: Storage, id: Seq<u8>) -> Storage {
    let (owner, info) = s.locked_commodities[id];
    Storage {
        total: s.total,
        burned: s.burned,
        total_for_account: s.total_for_account,
        commodities_for_account: if s.commodities_for_account.contains_key(owner) {
            s.commodities_for_account.insert(
                owner,
                sorted_insert(s.commodities_for_account[owner], (id, info)),
            )
        } else {
            s.commodities_for_account
        },
        account_for_commodity: s.account_for_commodity.insert(id, owner),
        locked_commodities: s.locked_commodities.remove(id),
    }
}

/// Unlocking: the new storage and the outcome.
pub open spec fn unlock_step(s: Storage, id: Seq<u8>) -> (Storage, Result<(), Error>) {
    if s.locked_commodities.contains_key(id) {
        (unlocked(s, id), Ok(()))
    } else {
        (s, Err(Error::NonexistentCommodity))
    }
}

/// The storage after giving the locked commodity `id` to `dest`.
pub open spec fn force_transferred(s: Storage, dest: AccountId, id: Seq<u8>) -> Storage {
    let (owner, info) = s.locked_commodities[id];
    let counts = count_down(s.total_for_account, owner);
    Storage {
        total: s.total,
        burned: s.burned,
        total_for_account: count_up(counts, dest),
        commodities_for_account: add_commodity(s.commodities_for_account, dest, (id, info)),
        account_for_commodity: s.account_for_commodity.insert(id, dest),
        locked_commodities: s.locked_commodities.remove(id),
    }
}

/// Forced transfer: a commodity that is not locked is transferred as usual;
/// a locked one goes to `dest` from its lock, refused where `dest` already
/// owns the maximum number of commodities.
pub open spec fn force_transfer_step(s: Storage, config: Config, dest: AccountId, id: Seq<u8>) -> (
    Storage,
    Result<(), Error>,
) {
    if !s.locked_commodities.contains_key(id) {
        transfer_step(s, config, dest, id)
    } else if count_in(s.total_for_account, dest) >= config.user_commodity_limit {
        (s, Err(Error::TooManyCommoditiesForAccount))
    } else {
        (force_transferred(s, dest, id), Ok(()))
    }
}


/// Every account's list of commodities is sorted.
pub open spec fn lists_sorted(s: Storage) -> bool {
    forall|a: AccountId| #[trigger]
        s.commodities_for_account.contains_key(a) ==> strictly_sorted(
            s.commodities_for_account[a],
        )
}

/// The owner of every commodity has it in its list.
pub open spec fn owners_hold(s: Storage) -> bool {
    forall|id: Seq<u8>| #[trigger]
        s.account_for_commodity.contains_key(id) ==> {
            &&& s.commodities_for_account.contains_key(s.account_for_commodity[id])
            &&& id_index(s.commodities_for_account[s.account_for_commodity[id]], id) >= 0
        }
}

/// The account that a locked commodity was taken from has a list.
pub open spec fn locks_have_lists(s: Storage) -> bool {
    forall|id: Seq<u8>| #[trigger]
        s.locked_commodities.contains_key(id) ==> s.commodities_for_account.contains_key(
            s.locked_commodities[id].0,
        )
}

/// The configured limits hold.
pub open spec fn within_limits(s: Storage, config: Config) -> bool {
    &&& value_or_zero(s.total) <= config.commodity_limit
    &&& forall|a: AccountId| #[trigger]
        count_in(s.total_for_account, a) <= config.user_commodity_limit
}

/// Each commodity is owned or locked, never both; no list holds an
/// identifier twice; and every entry of a list is owned by that list's account.
pub open spec fn single_ownership(s: Storage) -> bool {
    &&& forall|id: Seq<u8>| #[trigger]
        s.locked_commodities.contains_key(id) ==> !s.account_for_commodity.contains_key(id)
    &&& forall|a: AccountId| #[trigger]
        s.commodities_for_account.contains_key(a) ==> ids_distinct(s.commodities_for_account[a])
    &&& forall|a: AccountId, i: int|
        s.commodities_for_account.contains_key(a) && 0 <= i < s.commodities_for_account[a].len()
            ==> {
            &&& s.account_for_commodity.contains_key(#[trigger] s.commodities_for_account[a][i].0)
            &&& s.account_for_commodity[s.commodities_for_account[a][i].0] == a
        }
}

/// The invariants of the registry's storage.
pub open spec fn consistent(s: Storage, config: Config) -> bool {
    &&& single_ownership(s)
    &&& lists_sorted(s)
    &&& owners_hold(s)
    &&& locks_have_lists(s)
    &&& within_limits(s, config)
}

/// The length of an account's list, with no list read as empty.
pub open spec fn list_len(s: Storage, a: AccountId) -> int {
    if s.commodities_for_account.contains_key(a) {
        s.commodities_for_account[a].len() as int
    } else {
        0
    }
}

/// Adding a commodity to a list keeps the lists sorted and the identifiers
/// they hold, adds the new one, and lengthens only that list, by at most one.
pub proof fn lemma_add_commodity(
    m: Map<AccountId, Seq<CommodityView>>,
    a: AccountId,
    c: CommodityView,
)
    requires
        forall|b: AccountId| #[trigger] m.contains_key(b) ==> strictly_sorted(m[b]),
    ensures
        forall|b: AccountId| #[trigger]
            add_commodity(m, a, c).contains_key(b) ==> strictly_sorted(add_commodity(m, a, c)[b]),
        add_commodity(m, a, c).contains_key(a),
        id_index(add_commodity(m, a, c)[a], c.0) >= 0,
        forall|x: Seq<u8>|
            m.contains_key(a) && id_index(m[a], x) >= 0 ==> id_index(
                #[trigger] add_commodity(m, a, c)[a],
                x,
            ) >= 0,
        m.contains_key(a) ==> add_commodity(m, a, c)[a].len() <= m[a].len() + 1,
        !m.contains_key(a) ==> add_commodity(m, a, c)[a].len() == 1,
        forall|b: AccountId| #[trigger] m.contains_key(b) ==> add_commodity(m, a, c).contains_key(b),
        forall|b: AccountId|
            b != a ==> #[trigger] add_commodity(m, a, c).contains_key(b) == m.contains_key(b)
                && add_commodity(m, a, c)[b] == m[b],
{
    if m.contains_key(a) {
        lemma_sorted_insert(m[a], c);
        lemma_sorted_insert_ids(m[a], c, c.0);
        assert forall|x: Seq<u8>| id_index(m[a], x) >= 0 implies id_index(
            #[trigger] add_commodity(m, a, c)[a],
            x,
        ) >= 0 by {
            lemma_sorted_insert_ids(m[a], c, x);
        }
    } else {
        assert(id_index(seq![c], c.0) == 0);
    }
}

/// Minting keeps the invariants, and lengthens only the owner's list, by at most one.
pub proof fn lemma_minted_consistent(
    s: Storage,
    config: Config,
    owner: AccountId,
    id: Seq<u8>,
    info: Seq<u8>,
)
    requires
        consistent(s, config),
        mint_error(s, config, owner, id) is None,
    ensures
        consistent(minted(s, owner, id, info), config),
        list_len(minted(s, owner, id, info), owner) <= list_len(s, owner) + 1,
        forall|a: AccountId| a != owner ==> #[trigger] list_len(minted(s, owner, id, info), a) == list_len(s, a),
{
    let t = minted(s, owner, id, info);
    lemma_minted_single(s, config, owner, id, info);
    lemma_add_commodity(s.commodities_for_account, owner, (id, info));
    assert forall|x: Seq<u8>| #[trigger] t.account_for_commodity.contains_key(x) implies {
        &&& t.commodities_for_account.contains_key(t.account_for_commodity[x])
        &&& id_index(t.commodities_for_account[t.account_for_commodity[x]], x) >= 0
    } by {
        if x != id {
            assert(s.account_for_commodity.contains_key(x));
        }
    }
    assert forall|x: Seq<u8>| #[trigger] t.locked_commodities.contains_key(x) implies t.commodities_for_account.contains_key(
        t.locked_commodities[x].0,
    ) by {
        assert(s.locked_commodities.contains_key(x));
    }
    assert forall|a: AccountId| #[trigger] count_in(t.total_for_account, a) <= config.user_commodity_limit by {
        assert(count_in(s.total_for_account, a) <= config.user_commodity_limit);
    }
}


/// Taking a commodity out of its owner's list keeps the lists sorted and
/// the other identifiers they hold, and shortens that list by one.
pub proof fn lemma_take_commodity(m: Map<AccountId, Seq<CommodityView>>, a: AccountId, id: Seq<u8>)
    requires
        forall|b: AccountId| #[trigger] m.contains_key(b) ==> strictly_sorted(m[b]),
        m.contains_key(a),
        id_index(m[a], id) >= 0,
    ensures
        forall|b: AccountId| #[trigger]
            m.insert(a, without_id(m[a], id)).contains_key(b) ==> strictly_sorted(
                m.insert(a, without_id(m[a], id))[b],
            ),
        forall|x: Seq<u8>|
            x != id && id_index(m[a], x) >= 0 ==> id_index(
                #[trigger] m.insert(a, without_id(m[a], id))[a],
                x,
            ) >= 0,
        without_id(m[a], id).len() == m[a].len() - 1,
        m[a][id_index(m[a], id)].0 == id,
{
    lemma_id_index(m[a], id);
    lemma_remove_sorted(m[a], id_index(m[a], id));
    lemma_without_id_ids(m[a], id, id);
    assert forall|x: Seq<u8>| x != id && id_index(m[a], x) >= 0 implies id_index(
        #[trigger] m.insert(a, without_id(m[a], id))[a],
        x,
    ) >= 0 by {
        lemma_without_id_ids(m[a], id, x);
    }
}

/// Burning keeps the invariants, and shortens only the owner's list, by one.
pub proof fn lemma_burned_consistent(s: Storage, config: Config, id: Seq<u8>)
    requires
        consistent(s, config),
        owned_error(s, id) is None,
        value_or_zero(s.total) >= 1,
        count_in(s.total_for_account, owner_of(s, id)) >= 1,
    ensures
        consistent(burned(s, id), config),
        forall|a: AccountId| #[trigger]
            list_len(burned(s, id), a) == list_len(s, a) - if a == owner_of(s, id) {
                1int
            } else {
                0int
            },
{
    let t = burned(s, id);
    let o = owner_of(s, id);
    assert(s.account_for_commodity.contains_key(id));
    lemma_burned_single(s, config, id);
    lemma_take_commodity(s.commodities_for_account, o, id);
    assert forall|x: Seq<u8>| #[trigger] t.account_for_commodity.contains_key(x) implies {
        &&& t.commodities_for_account.contains_key(t.account_for_commodity[x])
        &&& id_index(t.commodities_for_account[t.account_for_commodity[x]], x) >= 0
    } by {
        assert(s.account_for_commodity.contains_key(x));
    }
    assert forall|x: Seq<u8>| #[trigger] t.locked_commodities.contains_key(x) implies t.commodities_for_account.contains_key(
        t.locked_commodities[x].0,
    ) by {
        assert(s.locked_commodities.contains_key(x));
    }
    assert forall|a: AccountId| #[trigger] count_in(t.total_for_account, a) <= config.user_commodity_limit by {
        assert(count_in(s.total_for_account, a) <= config.user_commodity_limit);
    }
}

/// Transferring keeps the invariants; the owner's list loses the commodity
/// and the receiver's gains at most one.
pub proof fn lemma_transferred_consistent(s: Storage, config: Config, dest: AccountId, id: Seq<u8>)
    requires
        consistent(s, config),
        transfer_error(s, config, dest, id) is None,
        count_in(s.total_for_account, owner_of(s, id)) >= 1,
    ensures
        consistent(transferred(s, dest, id), config),
        owned_commodity(s, id).0 == id,
        forall|a: AccountId| #[trigger]
            list_len(transferred(s, dest, id), a) <= list_len(s, a) - (if a == owner_of(s, id) {
                1int
            } else {
                0int
            }) + (if a == dest {
                1int
            } else {
                0int
            }),
{
    let t = transferred(s, dest, id);
    let o = owner_of(s, id);
    let c = owned_commodity(s, id);
    assert(s.account_for_commodity.contains_key(id));
    lemma_transferred_single(s, config, dest, id);
    lemma_take_commodity(s.commodities_for_account, o, id);
    let lists = s.commodities_for_account.insert(o, without_id(s.commodities_for_account[o], id));
    lemma_add_commodity(lists, dest, c);
    assert forall|x: Seq<u8>| #[trigger] t.account_for_commodity.contains_key(x) implies {
        &&& t.commodities_for_account.contains_key(t.account_for_commodity[x])
        &&& id_index(t.commodities_for_account[t.account_for_commodity[x]], x) >= 0
    } by {
        if x != id {
            assert(s.account_for_commodity.contains_key(x));
            let o2 = s.account_for_commodity[x];
            assert(lists.contains_key(o2));
            assert(id_index(lists[o2], x) >= 0);
        }
    }
    assert forall|x: Seq<u8>| #[trigger] t.locked_commodities.contains_key(x) implies t.commodities_for_account.contains_key(
        t.locked_commodities[x].0,
    ) by {
        assert(s.locked_commodities.contains_key(x));
        assert(lists.contains_key(s.locked_commodities[x].0));
    }
    assert forall|a: AccountId| #[trigger] count_in(t.total_for_account, a) <= config.user_commodity_limit by {
        assert(count_in(s.total_for_account, a) <= config.user_commodity_limit);
    }
    assert forall|a: AccountId| #[trigger]
        list_len(t, a) <= list_len(s, a) - (if a == o {
            1int
        } else {
            0int
        }) + (if a == dest {
            1int
        } else {
            0int
        }) by {
        if a != dest && a != o {
            assert(lists.contains_key(a) == s.commodities_for_account.contains_key(a));
        }
    }
}

/// Locking keeps the invariants, and shortens only the owner's list, by one.
pub proof fn lemma_locked_consistent(s: Storage, config: Config, id: Seq<u8>)
    requires
        consistent(s, config),
        owned_error(s, id) is None,
    ensures
        consistent(locked(s, id), config),
        owned_commodity(s, id).0 == id,
        forall|a: AccountId| #[trigger]
            list_len(locked(s, id), a) == list_len(s, a) - if a == owner_of(s, id) {
                1int
            } else {
                0int
            },
{
    let t = locked(s, id);
    let o = owner_of(s, id);
    assert(s.account_for_commodity.contains_key(id));
    lemma_locked_single(s, config, id);
    lemma_take_commodity(s.commodities_for_account, o, id);
    assert forall|x: Seq<u8>| #[trigger] t.account_for_commodity.contains_key(x) implies {
        &&& t.commodities_for_account.contains_key(t.account_for_commodity[x])
        &&& id_index(t.commodities_for_account[t.account_for_commodity[x]], x) >= 0
    } by {
        assert(s.account_for_commodity.contains_key(x));
    }
    assert forall|x: Seq<u8>| #[trigger] t.locked_commodities.contains_key(x) implies t.commodities_for_account.contains_key(
        t.locked_commodities[x].0,
    ) by {
        if x != id {
            assert(s.locked_commodities.contains_key(x));
        }
    }
}

/// Unlocking keeps the invariants, and lengthens only the owner's list, by at most one.
pub proof fn lemma_unlocked_consistent(s: Storage, config: Config, id: Seq<u8>)
    requires
        consistent(s, config),
        s.locked_commodities.contains_key(id),
    ensures
        consistent(unlocked(s, id), config),
        forall|a: AccountId| #[trigger]
            list_len(unlocked(s, id), a) <= list_len(s, a) + if a == s.locked_commodities[id].0 {
                1int
            } else {
                0int
            },
{
    let t = unlocked(s, id);
    let (o, info) = s.locked_commodities[id];
    assert(s.commodities_for_account.contains_key(o));
    lemma_unlocked_single(s, config, id);
    lemma_add_commodity(s.commodities_for_account, o, (id, info));
    assert(t.commodities_for_account == add_commodity(s.commodities_for_account, o, (id, info)));
    assert forall|x: Seq<u8>| #[trigger] t.account_for_commodity.contains_key(x) implies {
        &&& t.commodities_for_account.contains_key(t.account_for_commodity[x])
        &&& id_index(t.commodities_for_account[t.account_for_commodity[x]], x) >= 0
    } by {
        if x != id {
            assert(s.account_for_commodity.contains_key(x));
        }
    }
    assert forall|x: Seq<u8>| #[trigger] t.locked_commodities.contains_key(x) implies t.commodities_for_account.contains_key(
        t.locked_commodities[x].0,
    ) by {
        assert(s.locked_commodities.contains_key(x));
    }
}

/// Giving a locked commodity away keeps the invariants, and lengthens only
/// the receiver's list, by at most one.
pub proof fn lemma_force_transferred_consistent(
    s: Storage,
    config: Config,
    dest: AccountId,
    id: Seq<u8>,
)
    requires
        consistent(s, config),
        s.locked_commodities.contains_key(id),
        count_in(s.total_for_account, dest) < config.user_commodity_limit,
        count_in(s.total_for_account, s.locked_commodities[id].0) >= 1,
    ensures
        consistent(force_transferred(s, dest, id), config),
        forall|a: AccountId| #[trigger]
            list_len(force_transferred(s, dest, id), a) <= list_len(s, a) + if a == dest {
                1int
            } else {
                0int
            },
{
    let t = force_transferred(s, dest, id);
    let (o, info) = s.locked_commodities[id];
    lemma_force_transferred_single(s, config, dest, id);
    lemma_add_commodity(s.commodities_for_account, dest, (id, info));
    assert forall|x: Seq<u8>| #[trigger] t.account_for_commodity.contains_key(x) implies {
        &&& t.commodities_for_account.contains_key(t.account_for_commodity[x])
        &&& id_index(t.commodities_for_account[t.account_for_commodity[x]], x) >= 0
    } by {
        if x != id {
            assert(s.account_for_commodity.contains_key(x));
        }
    }
    assert forall|x: Seq<u8>| #[trigger] t.locked_commodities.contains_key(x) implies t.commodities_for_account.contains_key(
        t.locked_commodities[x].0,
    ) by {
        assert(s.locked_commodities.contains_key(x));
    }
    assert forall|a: AccountId| #[trigger] count_in(t.total_for_account, a) <= config.user_commodity_limit by {
        assert(count_in(s.total_for_account, a) <= config.user_commodity_limit);
    }
}

/// An entry of an account's list is owned by that account.
pub proof fn lemma_entry_owned(s: Storage, b: AccountId, e: CommodityView)
    requires
        single_ownership(s),
        s.commodities_for_account.contains_key(b),
        s.commodities_for_account[b].contains(e),
    ensures
        s.account_for_commodity.contains_key(e.0),
        s.account_for_commodity[e.0] == b,
{
    let k = choose|k: int|
        0 <= k < s.commodities_for_account[b].len() && s.commodities_for_account[b][k] == e;
    assert(s.account_for_commodity.contains_key(s.commodities_for_account[b][k].0));
}

/// No list holds an identifier that is not owned.
pub proof fn lemma_unowned_absent(s: Storage, b: AccountId, x: Seq<u8>)
    requires
        single_ownership(s),
        s.commodities_for_account.contains_key(b),
        !s.account_for_commodity.contains_key(x),
    ensures
        forall|j: int|
            0 <= j < s.commodities_for_account[b].len() ==> #[trigger] s.commodities_for_account[b][j].0
                != x,
{
    assert forall|j: int| 0 <= j < s.commodities_for_account[b].len() implies #[trigger] s.commodities_for_account[b][j].0
        != x by {
        assert(s.account_for_commodity.contains_key(s.commodities_for_account[b][j].0));
    }
}

/// Adding a commodity with a new identifier to an account's list keeps the
/// lists' identifiers distinct, and every entry of the new list is either the
/// commodity or was there before.
pub proof fn lemma_add_fresh(
    m: Map<AccountId, Seq<CommodityView>>,
    a: AccountId,
    c: CommodityView,
)
    requires
        forall|b: AccountId| #[trigger] m.contains_key(b) ==> strictly_sorted(m[b]),
        forall|b: AccountId| #[trigger] m.contains_key(b) ==> ids_distinct(m[b]),
        m.contains_key(a) ==> forall|j: int| 0 <= j < m[a].len() ==> #[trigger] m[a][j].0 != c.0,
    ensures
        forall|b: AccountId| #[trigger]
            add_commodity(m, a, c).contains_key(b) ==> ids_distinct(add_commodity(m, a, c)[b]),
        forall|k: int|
            0 <= k < add_commodity(m, a, c)[a].len() ==> #[trigger] add_commodity(m, a, c)[a][k] == c
                || (add_commodity(m, a, c)[a][k].0 != c.0 && m.contains_key(a) && m[a].contains(
                add_commodity(m, a, c)[a][k],
            )),
        add_commodity(m, a, c)[a].len() == (if m.contains_key(a) {
            m[a].len() as int
        } else {
            0int
        }) + 1,
{
    if m.contains_key(a) {
        lemma_insert_fresh(m[a], c);
    } else {
        assert(seq![c].len() == 1);
    }
    assert forall|b: AccountId| #[trigger] add_commodity(m, a, c).contains_key(b) implies ids_distinct(
        add_commodity(m, a, c)[b],
    ) by {
        if b != a {
            assert(m.contains_key(b));
        }
    }
}

/// Minting keeps single ownership, and lengthens the owner's list by one.
pub proof fn lemma_minted_single(s: Storage, config: Config, owner: AccountId, id: Seq<u8>, info: Seq<u8>)
    requires
        consistent(s, config),
        mint_error(s, config, owner, id) is None,
    ensures
        single_ownership(minted(s, owner, id, info)),
        list_len(minted(s, owner, id, info), owner) == list_len(s, owner) + 1,
{
    let t = minted(s, owner, id, info);
    let m = s.commodities_for_account;
    let c = (id, info);
    if m.contains_key(owner) {
        lemma_unowned_absent(s, owner, id);
    }
    lemma_add_fresh(m, owner, c);
    assert forall|x: Seq<u8>| #[trigger] t.locked_commodities.contains_key(x) implies !t.account_for_commodity.contains_key(x) by {
        assert(s.locked_commodities.contains_key(x));
    }
    assert forall|a: AccountId, i: int|
        t.commodities_for_account.contains_key(a) && 0 <= i < t.commodities_for_account[a].len()
            implies {
        &&& t.account_for_commodity.contains_key(#[trigger] t.commodities_for_account[a][i].0)
        &&& t.account_for_commodity[t.commodities_for_account[a][i].0] == a
    } by {
        let e = t.commodities_for_account[a][i];
        if a == owner {
            if e != c {
                lemma_entry_owned(s, owner, e);
            }
        } else {
            assert(t.commodities_for_account[a] == m[a]);
            assert(s.account_for_commodity.contains_key(m[a][i].0));
        }
    }
}

/// Taking the entry of an owned commodity out of its owner's list keeps
/// single ownership of the rest.
pub proof fn lemma_take_owned(s: Storage, id: Seq<u8>)
    requires
        single_ownership(s),
        owners_hold(s),
        s.account_for_commodity.contains_key(id),
    ensures
        ({
            let o = s.account_for_commodity[id];
            let l = s.commodities_for_account[o];
            &&& id_index(l, id) >= 0
            &&& ids_distinct(without_id(l, id))
            &&& without_id(l, id).len() == l.len() - 1
            &&& forall|k: int|
                0 <= k < without_id(l, id).len() ==> l.contains(#[trigger] without_id(l, id)[k])
                    && without_id(l, id)[k].0 != id
        }),
{
    let o = s.account_for_commodity[id];
    let l = s.commodities_for_account[o];
    lemma_id_index(l, id);
    lemma_remove_distinct(l, id_index(l, id));
}


/// Burning keeps single ownership.
pub proof fn lemma_burned_single(s: Storage, config: Config, id: Seq<u8>)
    requires
        consistent(s, config),
        s.account_for_commodity.contains_key(id),
    ensures
        single_ownership(burned(s, id)),
{
    let t = burned(s, id);
    let o = s.account_for_commodity[id];
    let m = s.commodities_for_account;
    lemma_take_owned(s, id);
    assert forall|x: Seq<u8>| #[trigger] t.locked_commodities.contains_key(x) implies !t.account_for_commodity.contains_key(x) by {
        assert(s.locked_commodities.contains_key(x));
    }
    assert forall|a: AccountId| #[trigger] t.commodities_for_account.contains_key(a) implies ids_distinct(
        t.commodities_for_account[a],
    ) by {
        if a != o {
            assert(m.contains_key(a));
        }
    }
    assert forall|a: AccountId, i: int|
        t.commodities_for_account.contains_key(a) && 0 <= i < t.commodities_for_account[a].len()
            implies {
        &&& t.account_for_commodity.contains_key(#[trigger] t.commodities_for_account[a][i].0)
        &&& t.account_for_commodity[t.commodities_for_account[a][i].0] == a
    } by {
        let e = t.commodities_for_account[a][i];
        if a == o {
            lemma_entry_owned(s, o, e);
        } else {
            assert(s.account_for_commodity.contains_key(m[a][i].0));
        }
    }
}

/// Transferring keeps single ownership; the owner's list loses one entry and
/// the receiver's gains one.
pub proof fn lemma_transferred_single(s: Storage, config: Config, dest: AccountId, id: Seq<u8>)
    requires
        consistent(s, config),
        s.account_for_commodity.contains_key(id),
    ensures
        single_ownership(transferred(s, dest, id)),
        forall|a: AccountId| #[trigger]
            list_len(transferred(s, dest, id), a) == list_len(s, a) - (if a == owner_of(s, id) {
                1int
            } else {
                0int
            }) + (if a == dest {
                1int
            } else {
                0int
            }),
{
    let t = transferred(s, dest, id);
    let o = s.account_for_commodity[id];
    let m = s.commodities_for_account;
    let l = m[o];
    let c = owned_commodity(s, id);
    lemma_take_owned(s, id);
    lemma_id_index(l, id);
    let lists = m.insert(o, without_id(l, id));
    assert forall|b: AccountId| #[trigger] lists.contains_key(b) implies strictly_sorted(lists[b]) by {
        if b == o {
            lemma_remove_sorted(l, id_index(l, id));
        }
    }
    assert forall|b: AccountId| #[trigger] lists.contains_key(b) implies ids_distinct(lists[b]) by {
        if b != o {
            assert(m.contains_key(b));
        }
    }
    if lists.contains_key(dest) {
        assert forall|j: int| 0 <= j < lists[dest].len() implies #[trigger] lists[dest][j].0 != c.0 by {
            if dest != o {
                assert(s.account_for_commodity.contains_key(m[dest][j].0));
            }
        }
    }
    lemma_add_fresh(lists, dest, c);
    assert forall|x: Seq<u8>| #[trigger] t.locked_commodities.contains_key(x) implies !t.account_for_commodity.contains_key(x) by {
        assert(s.locked_commodities.contains_key(x));
    }
    assert forall|a: AccountId, i: int|
        t.commodities_for_account.contains_key(a) && 0 <= i < t.commodities_for_account[a].len()
            implies {
        &&& t.account_for_commodity.contains_key(#[trigger] t.commodities_for_account[a][i].0)
        &&& t.account_for_commodity[t.commodities_for_account[a][i].0] == a
    } by {
        let e = t.commodities_for_account[a][i];
        if a == dest {
            if e != c {
                if dest == o {
                    assert(without_id(l, id).contains(e));
                    let k = choose|k: int| 0 <= k < without_id(l, id).len() && without_id(l, id)[k] == e;
                    assert(l.contains(without_id(l, id)[k]));
                    lemma_entry_owned(s, o, e);
                } else {
                    lemma_entry_owned(s, dest, e);
                }
            }
        } else if a == o {
            assert(l.contains(without_id(l, id)[i]));
            lemma_entry_owned(s, o, e);
        } else {
            assert(s.account_for_commodity.contains_key(m[a][i].0));
        }
    }
    assert forall|a: AccountId| #[trigger]
        list_len(t, a) == list_len(s, a) - (if a == o {
            1int
        } else {
            0int
        }) + (if a == dest {
            1int
        } else {
            0int
        }) by {
        if a != dest && a != o {
            assert(lists.contains_key(a) == m.contains_key(a));
        }
    }
}

/// Locking keeps single ownership; the commodity was not locked before.
pub proof fn lemma_locked_single(s: Storage, config: Config, id: Seq<u8>)
    requires
        consistent(s, config),
        s.account_for_commodity.contains_key(id),
    ensures
        single_ownership(locked(s, id)),
        !s.locked_commodities.contains_key(id),
{
    let t = locked(s, id);
    let o = s.account_for_commodity[id];
    let m = s.commodities_for_account;
    lemma_take_owned(s, id);
    assert forall|x: Seq<u8>| #[trigger] t.locked_commodities.contains_key(x) implies !t.account_for_commodity.contains_key(x) by {
        if x != id {
            assert(s.locked_commodities.contains_key(x));
        }
    }
    assert forall|a: AccountId| #[trigger] t.commodities_for_account.contains_key(a) implies ids_distinct(
        t.commodities_for_account[a],
    ) by {
        if a != o {
            assert(m.contains_key(a));
        }
    }
    assert forall|a: AccountId, i: int|
        t.commodities_for_account.contains_key(a) && 0 <= i < t.commodities_for_account[a].len()
            implies {
        &&& t.account_for_commodity.contains_key(#[trigger] t.commodities_for_account[a][i].0)
        &&& t.account_for_commodity[t.commodities_for_account[a][i].0] == a
    } by {
        let e = t.commodities_for_account[a][i];
        if a == o {
            lemma_entry_owned(s, o, e);
        } else {
            assert(s.account_for_commodity.contains_key(m[a][i].0));
        }
    }
}

/// Unlocking keeps single ownership, and lengthens the owner's list by one.
pub proof fn lemma_unlocked_single(s: Storage, config: Config, id: Seq<u8>)
    requires
        consistent(s, config),
        s.locked_commodities.contains_key(id),
    ensures
        single_ownership(unlocked(s, id)),
        forall|a: AccountId| #[trigger]
            list_len(unlocked(s, id), a) == list_len(s, a) + if a == s.locked_commodities[id].0 {
                1int
            } else {
                0int
            },
{
    let t = unlocked(s, id);
    let (o, info) = s.locked_commodities[id];
    let m = s.commodities_for_account;
    let c = (id, info);
    assert(m.contains_key(o));
    lemma_unowned_absent(s, o, id);
    lemma_add_fresh(m, o, c);
    assert(t.commodities_for_account == add_commodity(m, o, c));
    assert forall|x: Seq<u8>| #[trigger] t.locked_commodities.contains_key(x) implies !t.account_for_commodity.contains_key(x) by {
        assert(s.locked_commodities.contains_key(x));
    }
    assert forall|a: AccountId, i: int|
        t.commodities_for_account.contains_key(a) && 0 <= i < t.commodities_for_account[a].len()
            implies {
        &&& t.account_for_commodity.contains_key(#[trigger] t.commodities_for_account[a][i].0)
        &&& t.account_for_commodity[t.commodities_for_account[a][i].0] == a
    } by {
        let e = t.commodities_for_account[a][i];
        if a == o {
            if e != c {
                lemma_entry_owned(s, o, e);
            }
        } else {
            assert(s.account_for_commodity.contains_key(m[a][i].0));
        }
    }
}

/// Giving a locked commodity away keeps single ownership, and lengthens the
/// receiver's list by one.
pub proof fn lemma_force_transferred_single(s: Storage, config: Config, dest: AccountId, id: Seq<u8>)
    requires
        consistent(s, config),
        s.locked_commodities.contains_key(id),
    ensures
        single_ownership(force_transferred(s, dest, id)),
        forall|a: AccountId| #[trigger]
            list_len(force_transferred(s, dest, id), a) == list_len(s, a) + if a == dest {
                1int
            } else {
                0int
            },
{
    let t = force_transferred(s, dest, id);
    let (o, info) = s.locked_commodities[id];
    let m = s.commodities_for_account;
    let c = (id, info);
    if m.contains_key(dest) {
        lemma_unowned_absent(s, dest, id);
    }
    lemma_add_fresh(m, dest, c);
    assert forall|x: Seq<u8>| #[trigger] t.locked_commodities.contains_key(x) implies !t.account_for_commodity.contains_key(x) by {
        assert(s.locked_commodities.contains_key(x));
    }
    assert forall|a: AccountId, i: int|
        t.commodities_for_account.contains_key(a) && 0 <= i < t.commodities_for_account[a].len()
            implies {
        &&& t.account_for_commodity.contains_key(#[trigger] t.commodities_for_account[a][i].0)
        &&& t.account_for_commodity[t.commodities_for_account[a][i].0] == a
    } by {
        let e = t.commodities_for_account[a][i];
        if a == dest {
            if e != c {
                lemma_entry_owned(s, dest, e);
            }
        } else {
            assert(s.account_for_commodity.contains_key(m[a][i].0));
        }
    }
}


/// The locked commodities that were taken from account `a`.
pub open spec fn locks_from(m: Map<Seq<u8>, (AccountId, Seq<u8>)>, a: AccountId) -> Set<Seq<u8>> {
    m.dom().filter(|id: Seq<u8>| m[id].0 == a)
}

/// Each account's stored count is exactly the length of its list plus the
/// number of locks taken from it.
pub open spec fn counts_exact(s: Storage) -> bool {
    forall|a: AccountId| #[trigger]
        count_in(s.total_for_account, a) == list_len(s, a) + locks_from(
            s.locked_commodities,
            a,
        ).len()
}

/// Locking a new identifier adds one lock to its account.
pub proof fn lemma_locks_insert(
    m: Map<Seq<u8>, (AccountId, Seq<u8>)>,
    id: Seq<u8>,
    v: (AccountId, Seq<u8>),
    a: AccountId,
)
    requires
        m.dom().finite(),
        !m.contains_key(id),
    ensures
        m.insert(id, v).dom().finite(),
        locks_from(m.insert(id, v), a).len() == locks_from(m, a).len() + if v.0 == a {
            1int
        } else {
            0int
        },
{
    let m2 = m.insert(id, v);
    assert(m2.dom() =~= m.dom().insert(id));
    let f = locks_from(m, a);
    m.dom().lemma_len_filter(|x: Seq<u8>| m[x].0 == a);
    if v.0 == a {
        assert(locks_from(m2, a) =~= f.insert(id));
    } else {
        assert(locks_from(m2, a) =~= f);
    }
}

/// Unlocking an identifier takes one lock from its account.
pub proof fn lemma_locks_remove(m: Map<Seq<u8>, (AccountId, Seq<u8>)>, id: Seq<u8>, a: AccountId)
    requires
        m.dom().finite(),
        m.contains_key(id),
    ensures
        m.remove(id).dom().finite(),
        locks_from(m.remove(id), a).len() == locks_from(m, a).len() - if m[id].0 == a {
            1int
        } else {
            0int
        },
{
    let m2 = m.remove(id);
    assert(m2.dom() =~= m.dom().remove(id));
    let f = locks_from(m, a);
    m.dom().lemma_len_filter(|x: Seq<u8>| m[x].0 == a);
    if m[id].0 == a {
        assert(locks_from(m2, a) =~= f.remove(id));
    } else {
        assert(locks_from(m2, a) =~= f);
    }
}


/// An account's list, with no list read as empty.
pub open spec fn list_or_empty(s: Storage, a: AccountId) -> Seq<CommodityView> {
    if s.commodities_for_account.contains_key(a) {
        s.commodities_for_account[a]
    } else {
        Seq::empty()
    }
}


/// Every commodity that exists is owned or locked: the total is the number
/// of owned commodities plus the number of locked ones.
pub open spec fn total_is_count(s: Storage) -> bool {
    &&& s.account_for_commodity.dom().finite()
    &&& s.locked_commodities.dom().finite()
    &&& value_or_zero(s.total) == s.account_for_commodity.dom().len()
        + s.locked_commodities.dom().len()
}

/// The invariants of the registry: consistency, exact counts, and a total
/// that counts every owned and every locked commodity.
pub open spec fn registry_ok(s: Storage, config: Config) -> bool {
    &&& consistent(s, config)
    &&& counts_exact(s)
    &&& total_is_count(s)
}

/// An owned commodity is counted for its owner and in the total.
pub proof fn lemma_owned_counted(s: Storage, config: Config, id: Seq<u8>)
    requires
        registry_ok(s, config),
        s.account_for_commodity.contains_key(id),
    ensures
        count_in(s.total_for_account, owner_of(s, id)) >= 1,
        value_or_zero(s.total) >= 1,
{
    let o = owner_of(s, id);
    lemma_take_owned(s, id);
    assert(count_in(s.total_for_account, o) == list_len(s, o) + locks_from(
        s.locked_commodities,
        o,
    ).len());
    assert(s.account_for_commodity.dom().remove(id).len() == s.account_for_commodity.dom().len()
        - 1);
}

/// A locked commodity is counted for the account it was taken from.
pub proof fn lemma_locked_counted(s: Storage, config: Config, id: Seq<u8>)
    requires
        registry_ok(s, config),
        s.locked_commodities.contains_key(id),
    ensures
        count_in(s.total_for_account, s.locked_commodities[id].0) >= 1,
{
    let o = s.locked_commodities[id].0;
    lemma_locks_remove(s.locked_commodities, id, o);
    assert(count_in(s.total_for_account, o) == list_len(s, o) + locks_from(
        s.locked_commodities,
        o,
    ).len());
}


/// Every commodity in a list is identified by the hash of its info.
pub open spec fn all_hashed(l: Seq<CommodityView>) -> bool {
    forall|i: int| 0 <= i < l.len() ==> (#[trigger] l[i]).0 == commodity_hash(l[i].1)
}

/// Every listed and every locked commodity is identified by the hash of its info.
pub open spec fn ids_hashed(s: Storage) -> bool {
    &&& forall|a: AccountId| #[trigger]
        s.commodities_for_account.contains_key(a) ==> all_hashed(s.commodities_for_account[a])
    &&& forall|id: Seq<u8>| #[trigger]
        s.locked_commodities.contains_key(id) ==> id == commodity_hash(
            s.locked_commodities[id].1,
        )
}

/// Adding a hashed commodity to hashed lists keeps them hashed.
pub proof fn lemma_add_hashed(m: Map<AccountId, Seq<CommodityView>>, a: AccountId, c: CommodityView)
    requires
        forall|b: AccountId| #[trigger] m.contains_key(b) ==> strictly_sorted(m[b]),
        forall|b: AccountId| #[trigger] m.contains_key(b) ==> all_hashed(m[b]),
        c.0 == commodity_hash(c.1),
    ensures
        forall|b: AccountId| #[trigger]
            add_commodity(m, a, c).contains_key(b) ==> all_hashed(add_commodity(m, a, c)[b]),
{
    if m.contains_key(a) {
        let l = m[a];
        lemma_sorted_insert(l, c);
        let t = sorted_insert(l, c);
        assert forall|i: int| 0 <= i < t.len() implies (#[trigger] t[i]).0 == commodity_hash(t[i].1) by {
            assert(t.contains(t[i]));
            if t[i] != c {
                let j = choose|j: int| 0 <= j < l.len() && l[j] == t[i];
                assert(l[j].0 == commodity_hash(l[j].1));
            }
        }
    }
    assert forall|b: AccountId| #[trigger] add_commodity(m, a, c).contains_key(b) implies all_hashed(
        add_commodity(m, a, c)[b],
    ) by {
        if b != a {
            assert(m.contains_key(b));
        }
    }
}

/// Taking an entry out of a hashed list keeps it hashed.
pub proof fn lemma_without_hashed(l: Seq<CommodityView>, id: Seq<u8>)
    requires
        all_hashed(l),
    ensures
        all_hashed(without_id(l, id)),
        id_index(l, id) >= 0 ==> l[id_index(l, id)].0 == commodity_hash(l[id_index(l, id)].1),
{
    lemma_id_index(l, id);
    if id_index(l, id) >= 0 {
        let k = id_index(l, id);
        let t = l.remove(k);
        assert forall|i: int| 0 <= i < t.len() implies (#[trigger] t[i]).0 == commodity_hash(t[i].1) by {
            if i < k {
                assert(t[i] == l[i]);
            } else {
                assert(t[i] == l[i + 1]);
            }
        }
    }
}


/// The storage of a registry that nothing has been done to.
pub open spec fn empty_storage() -> Storage {
    Storage {
        total: None,
        burned: None,
        total_for_account: Map::empty(),
        commodities_for_account: Map::empty(),
        account_for_commodity: Map::empty(),
        locked_commodities: Map::empty(),
    }
}

/// A call of one of the registry's operations, with its arguments.
pub enum Call {
    Mint(AccountId, Seq<u8>),
    Burn(Seq<u8>),
    Transfer(AccountId, Seq<u8>),
    Lock(Seq<u8>),
    Unlock(Seq<u8>),
    ForceTransfer(AccountId, Seq<u8>),
}

/// What one call does; a mint is given the hash of its info as identifier.
pub open spec fn call_step(s: Storage, config: Config, call: Call) -> (Storage, Result<(), Error>) {
    match call {
        Call::Mint(owner, info) => mint_step(s, config, owner, commodity_hash(info), info),
        Call::Burn(id) => burn_step(s, id),
        Call::Transfer(dest, id) => transfer_step(s, config, dest, id),
        Call::Lock(id) => lock_step(s, id),
        Call::Unlock(id) => unlock_step(s, id),
        Call::ForceTransfer(dest, id) => force_transfer_step(s, config, dest, id),
    }
}

/// The storage after the calls, in order.
pub open spec fn run(s: Storage, config: Config, calls: Seq<Call>) -> Storage
    decreases calls.len(),
{
    if calls.len() == 0 {
        s
    } else {
        call_step(run(s, config, calls.drop_last()), config, calls.last()).0
    }
}

/// The number of calls that minted successfully.
pub open spec fn successful_mints(s: Storage, config: Config, calls: Seq<Call>) -> int
    decreases calls.len(),
{
    if calls.len() == 0 {
        0
    } else {
        successful_mints(s, config, calls.drop_last()) + if calls.last() is Mint && call_step(
            run(s, config, calls.drop_last()),
            config,
            calls.last(),
        ).1 is Ok {
            1int
        } else {
            0int
        }
    }
}

/// The number of burn calls.
pub open spec fn burn_calls(calls: Seq<Call>) -> int
    decreases calls.len(),
{
    if calls.len() == 0 {
        0
    } else {
        burn_calls(calls.drop_last()) + if calls.last() is Burn {
            1int
        } else {
            0int
        }
    }
}

} // verus!
