//! Properties of the registry that span its operations.
use vstd::prelude::*;

use crate::list::{
    id_index, lemma_id_index, lemma_insert_then_without, lemma_remove_reinsert, lemma_sorted_insert_ids,
    strictly_sorted, without_id,
};
use crate::model::{
    burn_step, consistent, count_in, counts_exact, force_transfer_step, lemma_burned_single,
    lemma_force_transferred_single, lemma_locked_single, lemma_locks_insert, lemma_locks_remove,
    lemma_minted_single, lemma_take_owned, lemma_transferred_single, lemma_unlocked_single,
    lemma_unowned_absent, list_len, list_or_empty, lock_step, locks_from, mint_step,
    owned_commodity, owner_of, single_ownership, transfer_step, unlock_step, value_or_zero, Storage,
    registry_ok, ids_hashed, empty_storage, run, call_step, successful_mints, burn_calls, Call,
    lemma_add_hashed, lemma_without_hashed, lemma_owned_counted, lemma_locked_counted, lemma_minted_consistent,
    lemma_burned_consistent, lemma_transferred_consistent, lemma_locked_consistent,
    lemma_unlocked_consistent, lemma_force_transferred_consistent,
};
use crate::hashing::commodity_hash;
use crate::types::{AccountId, CommodityView, Config, Error};

verus! {

/// A refused mint, burn, transfer, lock, unlock or forced transfer leaves the
/// storage as it was.
pub proof fn law_refusal_changes_nothing(
    s: Storage,
    config: Config,
    a: AccountId,
    id: Seq<u8>,
    info: Seq<u8>,
)
    ensures
        mint_step(s, config, a, id, info).1 is Err ==> mint_step(s, config, a, id, info).0 == s,
        burn_step(s, id).1 is Err ==> burn_step(s, id).0 == s,
        transfer_step(s, config, a, id).1 is Err ==> transfer_step(s, config, a, id).0 == s,
        lock_step(s, id).1 is Err ==> lock_step(s, id).0 == s,
        unlock_step(s, id).1 is Err ==> unlock_step(s, id).0 == s,
        force_transfer_step(s, config, a, id).1 is Err ==> force_transfer_step(s, config, a, id).0
            == s,
{
}

/// After a commodity is minted, the owner owns it and holds it in its list,
/// and minting the same info again, for anyone, is refused as a duplicate.
pub proof fn law_mint_owns_and_refuses_duplicates(
    s: Storage,
    config: Config,
    owner: AccountId,
    other: AccountId,
    id: Seq<u8>,
    info: Seq<u8>,
)
    requires
        consistent(s, config),
        mint_step(s, config, owner, id, info).1 is Ok,
    ensures
        owner_of(mint_step(s, config, owner, id, info).0, id) == owner,
        id_index(mint_step(s, config, owner, id, info).0.commodities_for_account[owner], id) >= 0,
        mint_step(s, config, owner, id, info).0.commodities_for_account[owner].contains((id, info)),
        mint_step(mint_step(s, config, owner, id, info).0, config, other, id, info) == (
            mint_step(s, config, owner, id, info).0,
            Err::<(), Error>(Error::CommodityExists),
        ),
{
    let t = mint_step(s, config, owner, id, info).0;
    let l = t.commodities_for_account[owner];
    if s.commodities_for_account.contains_key(owner) {
        lemma_sorted_insert_ids(s.commodities_for_account[owner], (id, info), id);
        crate::list::lemma_sorted_insert(s.commodities_for_account[owner], (id, info));
    } else {
        assert(l == seq![(id, info)]);
        assert(l[0] == (id, info));
        assert(id_index(l, id) == 0);
    }
}

/// After a transfer, the receiver owns the commodity and holds it in its list,
/// and the total is unchanged.
pub proof fn law_transfer_moves_ownership(s: Storage, config: Config, dest: AccountId, id: Seq<u8>)
    requires
        consistent(s, config),
        transfer_step(s, config, dest, id).1 is Ok,
    ensures
        owner_of(transfer_step(s, config, dest, id).0, id) == dest,
        id_index(transfer_step(s, config, dest, id).0.commodities_for_account[dest], id) >= 0,
        transfer_step(s, config, dest, id).0.total == s.total,
        transfer_step(s, config, dest, id).0.burned == s.burned,
{
    let o = owner_of(s, id);
    assert(s.account_for_commodity.contains_key(id));
    crate::model::lemma_take_commodity(s.commodities_for_account, o, id);
    let lists = s.commodities_for_account.insert(o, without_id(s.commodities_for_account[o], id));
    crate::model::lemma_add_commodity(lists, dest, owned_commodity(s, id));
}

/// Burning a commodity takes one from the total, adds one (wrapping) to the
/// burned count, and leaves the commodity without an owner. (In every state
/// the registry reaches, a commodity with an owner is counted in the total.)
pub proof fn law_burn_counts(s: Storage, id: Seq<u8>)
    requires
        burn_step(s, id).1 is Ok,
        value_or_zero(s.total) >= 1,
    ensures
        value_or_zero(burn_step(s, id).0.total) == value_or_zero(s.total) - 1,
        value_or_zero(burn_step(s, id).0.burned) == if value_or_zero(s.burned) == u128::MAX {
            0
        } else {
            value_or_zero(s.burned) + 1
        },
        !burn_step(s, id).0.account_for_commodity.contains_key(id),
        owner_of(burn_step(s, id).0, id) == 0,
{
}

/// Locking a commodity and unlocking it again gives back the storage.
pub proof fn law_lock_then_unlock(s: Storage, config: Config, id: Seq<u8>)
    requires
        consistent(s, config),
        lock_step(s, id).1 is Ok,
    ensures
        unlock_step(lock_step(s, id).0, id) == (s, Ok::<(), Error>(())),
{
    let t = lock_step(s, id).0;
    let o = owner_of(s, id);
    let l = s.commodities_for_account[o];
    assert(s.account_for_commodity.contains_key(id));
    assert(!s.locked_commodities.contains_key(id));
    lemma_id_index(l, id);
    let i = id_index(l, id);
    lemma_remove_reinsert(l, i);
    let c: CommodityView = l[i];
    assert(c == (id, c.1));
    let u = unlock_step(t, id).0;
    assert(u.commodities_for_account =~= s.commodities_for_account);
    assert(u.account_for_commodity =~= s.account_for_commodity);
    assert(u.locked_commodities =~= s.locked_commodities);
}


/// The info of a locked commodity cannot be minted again: a locked commodity
/// still exists.
pub proof fn law_locked_info_cannot_be_minted(
    s: Storage,
    config: Config,
    a: AccountId,
    id: Seq<u8>,
    info: Seq<u8>,
)
    requires
        lock_step(s, id).1 is Ok,
    ensures
        mint_step(lock_step(s, id).0, config, a, id, info) == (
            lock_step(s, id).0,
            Err::<(), Error>(Error::CommodityExists),
        ),
{
}

/// The number of commodities that exist plus the number burned grows by one
/// with each successful mint and is kept by every other operation; so, from
/// an empty registry and before the burned count wraps, it equals the number
/// of successful mints. (In every state the registry reaches, an owned
/// commodity is counted in the total.)
pub proof fn law_total_plus_burned(
    s: Storage,
    config: Config,
    a: AccountId,
    id: Seq<u8>,
    info: Seq<u8>,
)
    requires
        value_or_zero(s.burned) < u128::MAX,
        s.account_for_commodity.contains_key(id) ==> value_or_zero(s.total) >= 1,
    ensures
        value_or_zero(mint_step(s, config, a, id, info).0.total) + value_or_zero(
            mint_step(s, config, a, id, info).0.burned,
        ) == value_or_zero(s.total) + value_or_zero(s.burned) + if mint_step(
            s,
            config,
            a,
            id,
            info,
        ).1 is Ok {
            1int
        } else {
            0int
        },
        value_or_zero(burn_step(s, id).0.total) + value_or_zero(burn_step(s, id).0.burned)
            == value_or_zero(s.total) + value_or_zero(s.burned),
        transfer_step(s, config, a, id).0.total == s.total,
        transfer_step(s, config, a, id).0.burned == s.burned,
        lock_step(s, id).0.total == s.total,
        lock_step(s, id).0.burned == s.burned,
        unlock_step(s, id).0.total == s.total,
        unlock_step(s, id).0.burned == s.burned,
        force_transfer_step(s, config, a, id).0.total == s.total,
        force_transfer_step(s, config, a, id).0.burned == s.burned,
{
}

/// Minting a commodity and burning it again gives back the storage, but for
/// the burned count, reading an absent count as zero and an absent list as
/// empty.
pub proof fn law_mint_then_burn_restores(
    s: Storage,
    config: Config,
    owner: AccountId,
    id: Seq<u8>,
    info: Seq<u8>,
)
    requires
        consistent(s, config),
        mint_step(s, config, owner, id, info).1 is Ok,
    ensures
        burn_step(mint_step(s, config, owner, id, info).0, id).1 is Ok,
        value_or_zero(burn_step(mint_step(s, config, owner, id, info).0, id).0.total)
            == value_or_zero(s.total),
        forall|b: AccountId|
            count_in(#[trigger] burn_step(mint_step(s, config, owner, id, info).0, id).0.total_for_account, b)
                == count_in(s.total_for_account, b),
        forall|b: AccountId|
            list_or_empty(#[trigger] burn_step(mint_step(s, config, owner, id, info).0, id).0, b)
                == list_or_empty(s, b),
        burn_step(mint_step(s, config, owner, id, info).0, id).0.account_for_commodity
            == s.account_for_commodity,
        burn_step(mint_step(s, config, owner, id, info).0, id).0.locked_commodities
            == s.locked_commodities,
{
    let t = mint_step(s, config, owner, id, info).0;
    let u = burn_step(t, id).0;
    let m = s.commodities_for_account;
    if m.contains_key(owner) {
        lemma_unowned_absent(s, owner, id);
        lemma_id_index(m[owner], id);
        lemma_insert_then_without(m[owner], (id, info));
    } else {
        assert(seq![(id, info)][0].0 == id);
        assert(id_index(seq![(id, info)], id) == 0);
        assert(seq![(id, info)].remove(0) =~= Seq::<CommodityView>::empty());
    }
    assert forall|b: AccountId| list_or_empty(#[trigger] burn_step(t, id).0, b) == list_or_empty(s, b) by {
    }
    assert(u.account_for_commodity =~= s.account_for_commodity);
}

/// Minting keeps each account's count exactly its list plus its locks.
pub proof fn law_mint_keeps_exact_counts(
    s: Storage,
    config: Config,
    owner: AccountId,
    id: Seq<u8>,
    info: Seq<u8>,
)
    requires
        consistent(s, config),
        counts_exact(s),
        mint_step(s, config, owner, id, info).1 is Ok,
    ensures
        counts_exact(mint_step(s, config, owner, id, info).0),
        single_ownership(mint_step(s, config, owner, id, info).0),
{
    let t = mint_step(s, config, owner, id, info).0;
    lemma_minted_single(s, config, owner, id, info);
    crate::model::lemma_minted_consistent(s, config, owner, id, info);
    assert forall|b: AccountId| #[trigger]
        count_in(t.total_for_account, b) == list_len(t, b) + locks_from(t.locked_commodities, b).len() by {
        assert(count_in(s.total_for_account, b) == list_len(s, b) + locks_from(
            s.locked_commodities,
            b,
        ).len());
    }
}

/// Burning keeps each account's count exactly its list plus its locks.
pub proof fn law_burn_keeps_exact_counts(s: Storage, config: Config, id: Seq<u8>)
    requires
        consistent(s, config),
        counts_exact(s),
        burn_step(s, id).1 is Ok,
    ensures
        counts_exact(burn_step(s, id).0),
        single_ownership(burn_step(s, id).0),
{
    let t = burn_step(s, id).0;
    let o = owner_of(s, id);
    lemma_burned_single(s, config, id);
    lemma_take_owned(s, id);
    assert(count_in(s.total_for_account, o) == list_len(s, o) + locks_from(
        s.locked_commodities,
        o,
    ).len());
    assert forall|b: AccountId| #[trigger]
        count_in(t.total_for_account, b) == list_len(t, b) + locks_from(t.locked_commodities, b).len() by {
        assert(count_in(s.total_for_account, b) == list_len(s, b) + locks_from(
            s.locked_commodities,
            b,
        ).len());
    }
}

/// Transferring keeps each account's count exactly its list plus its locks,
/// and keeps single ownership.
pub proof fn law_transfer_keeps_exact_counts(s: Storage, config: Config, dest: AccountId, id: Seq<u8>)
    requires
        consistent(s, config),
        counts_exact(s),
        transfer_step(s, config, dest, id).1 is Ok,
    ensures
        counts_exact(transfer_step(s, config, dest, id).0),
        single_ownership(transfer_step(s, config, dest, id).0),
{
    let t = transfer_step(s, config, dest, id).0;
    let o = owner_of(s, id);
    lemma_transferred_single(s, config, dest, id);
    lemma_take_owned(s, id);
    assert(count_in(s.total_for_account, o) == list_len(s, o) + locks_from(
        s.locked_commodities,
        o,
    ).len());
    assert forall|b: AccountId| #[trigger]
        count_in(t.total_for_account, b) == list_len(t, b) + locks_from(t.locked_commodities, b).len() by {
        assert(count_in(s.total_for_account, b) == list_len(s, b) + locks_from(
            s.locked_commodities,
            b,
        ).len());
    }
}

/// Locking keeps each account's count exactly its list plus its locks, and
/// keeps single ownership: the commodity is then locked and not owned.
pub proof fn law_lock_keeps_exact_counts(s: Storage, config: Config, id: Seq<u8>)
    requires
        consistent(s, config),
        counts_exact(s),
        s.locked_commodities.dom().finite(),
        lock_step(s, id).1 is Ok,
    ensures
        counts_exact(lock_step(s, id).0),
        single_ownership(lock_step(s, id).0),
        lock_step(s, id).0.locked_commodities.dom().finite(),
        !lock_step(s, id).0.account_for_commodity.contains_key(id),
        lock_step(s, id).0.locked_commodities.contains_key(id),
{
    let t = lock_step(s, id).0;
    let o = owner_of(s, id);
    lemma_locked_single(s, config, id);
    lemma_take_owned(s, id);
    let v = (o, owned_commodity(s, id).1);
    assert forall|b: AccountId| #[trigger]
        count_in(t.total_for_account, b) == list_len(t, b) + locks_from(t.locked_commodities, b).len() by {
        assert(count_in(s.total_for_account, b) == list_len(s, b) + locks_from(
            s.locked_commodities,
            b,
        ).len());
        lemma_locks_insert(s.locked_commodities, id, v, b);
    }
    lemma_locks_insert(s.locked_commodities, id, v, o);
}

/// Unlocking keeps each account's count exactly its list plus its locks.
pub proof fn law_unlock_keeps_exact_counts(s: Storage, config: Config, id: Seq<u8>)
    requires
        consistent(s, config),
        counts_exact(s),
        s.locked_commodities.dom().finite(),
        unlock_step(s, id).1 is Ok,
    ensures
        counts_exact(unlock_step(s, id).0),
        single_ownership(unlock_step(s, id).0),
        unlock_step(s, id).0.locked_commodities.dom().finite(),
{
    let t = unlock_step(s, id).0;
    lemma_unlocked_single(s, config, id);
    assert forall|b: AccountId| #[trigger]
        count_in(t.total_for_account, b) == list_len(t, b) + locks_from(t.locked_commodities, b).len() by {
        assert(count_in(s.total_for_account, b) == list_len(s, b) + locks_from(
            s.locked_commodities,
            b,
        ).len());
        lemma_locks_remove(s.locked_commodities, id, b);
    }
    lemma_locks_remove(s.locked_commodities, id, s.locked_commodities[id].0);
}

/// A successful forced transfer keeps each account's count exactly its list
/// plus its locks.
pub proof fn law_force_transfer_keeps_exact_counts(
    s: Storage,
    config: Config,
    dest: AccountId,
    id: Seq<u8>,
)
    requires
        consistent(s, config),
        counts_exact(s),
        s.locked_commodities.dom().finite(),
        force_transfer_step(s, config, dest, id).1 is Ok,
    ensures
        counts_exact(force_transfer_step(s, config, dest, id).0),
        single_ownership(force_transfer_step(s, config, dest, id).0),
        force_transfer_step(s, config, dest, id).0.locked_commodities.dom().finite(),
{
    if !s.locked_commodities.contains_key(id) {
        law_transfer_keeps_exact_counts(s, config, dest, id);
    } else {
        let t = force_transfer_step(s, config, dest, id).0;
        let o = s.locked_commodities[id].0;
        lemma_force_transferred_single(s, config, dest, id);
        lemma_locks_remove(s.locked_commodities, id, o);
        assert(count_in(s.total_for_account, o) == list_len(s, o) + locks_from(
            s.locked_commodities,
            o,
        ).len());
        assert forall|b: AccountId| #[trigger]
            count_in(t.total_for_account, b) == list_len(t, b) + locks_from(
                t.locked_commodities,
                b,
            ).len() by {
            assert(count_in(s.total_for_account, b) == list_len(s, b) + locks_from(
                s.locked_commodities,
                b,
            ).len());
            lemma_locks_remove(s.locked_commodities, id, b);
        }
    }
}


/// Minting, refused or not, keeps the registry's invariants.
pub proof fn law_mint_keeps_registry(
    s: Storage,
    config: Config,
    owner: AccountId,
    id: Seq<u8>,
    info: Seq<u8>,
)
    requires
        registry_ok(s, config),
    ensures
        registry_ok(mint_step(s, config, owner, id, info).0, config),
{
    if mint_step(s, config, owner, id, info).1 is Ok {
        let t = mint_step(s, config, owner, id, info).0;
        lemma_minted_consistent(s, config, owner, id, info);
        law_mint_keeps_exact_counts(s, config, owner, id, info);
        assert(t.account_for_commodity.dom() =~= s.account_for_commodity.dom().insert(id));
    }
}

/// Burning, refused or not, keeps the registry's invariants.
pub proof fn law_burn_keeps_registry(s: Storage, config: Config, id: Seq<u8>)
    requires
        registry_ok(s, config),
    ensures
        registry_ok(burn_step(s, id).0, config),
{
    if burn_step(s, id).1 is Ok {
        let t = burn_step(s, id).0;
        lemma_owned_counted(s, config, id);
        lemma_burned_consistent(s, config, id);
        law_burn_keeps_exact_counts(s, config, id);
        assert(t.account_for_commodity.dom() =~= s.account_for_commodity.dom().remove(id));
    }
}

/// Transferring, refused or not, keeps the registry's invariants.
pub proof fn law_transfer_keeps_registry(s: Storage, config: Config, dest: AccountId, id: Seq<u8>)
    requires
        registry_ok(s, config),
    ensures
        registry_ok(transfer_step(s, config, dest, id).0, config),
{
    if transfer_step(s, config, dest, id).1 is Ok {
        let t = transfer_step(s, config, dest, id).0;
        lemma_owned_counted(s, config, id);
        lemma_transferred_consistent(s, config, dest, id);
        law_transfer_keeps_exact_counts(s, config, dest, id);
        assert(t.account_for_commodity.dom() =~= s.account_for_commodity.dom());
    }
}

/// Locking, refused or not, keeps the registry's invariants.
pub proof fn law_lock_keeps_registry(s: Storage, config: Config, id: Seq<u8>)
    requires
        registry_ok(s, config),
    ensures
        registry_ok(lock_step(s, id).0, config),
{
    if lock_step(s, id).1 is Ok {
        let t = lock_step(s, id).0;
        lemma_locked_consistent(s, config, id);
        law_lock_keeps_exact_counts(s, config, id);
        assert(t.account_for_commodity.dom() =~= s.account_for_commodity.dom().remove(id));
        assert(t.locked_commodities.dom() =~= s.locked_commodities.dom().insert(id));
    }
}

/// Unlocking, refused or not, keeps the registry's invariants.
pub proof fn law_unlock_keeps_registry(s: Storage, config: Config, id: Seq<u8>)
    requires
        registry_ok(s, config),
    ensures
        registry_ok(unlock_step(s, id).0, config),
{
    if unlock_step(s, id).1 is Ok {
        let t = unlock_step(s, id).0;
        lemma_unlocked_consistent(s, config, id);
        law_unlock_keeps_exact_counts(s, config, id);
        assert(t.account_for_commodity.dom() =~= s.account_for_commodity.dom().insert(id));
        assert(t.locked_commodities.dom() =~= s.locked_commodities.dom().remove(id));
    }
}

/// A forced transfer, refused or not, keeps the registry's invariants.
pub proof fn law_force_transfer_keeps_registry(
    s: Storage,
    config: Config,
    dest: AccountId,
    id: Seq<u8>,
)
    requires
        registry_ok(s, config),
    ensures
        registry_ok(force_transfer_step(s, config, dest, id).0, config),
{
    if !s.locked_commodities.contains_key(id) {
        law_transfer_keeps_registry(s, config, dest, id);
    } else if force_transfer_step(s, config, dest, id).1 is Ok {
        let t = force_transfer_step(s, config, dest, id).0;
        lemma_locked_counted(s, config, id);
        lemma_force_transferred_consistent(s, config, dest, id);
        law_force_transfer_keeps_exact_counts(s, config, dest, id);
        assert(t.account_for_commodity.dom() =~= s.account_for_commodity.dom().insert(id));
        assert(t.locked_commodities.dom() =~= s.locked_commodities.dom().remove(id));
    }
}


/// Every operation keeps every listed and every locked commodity identified
/// by the hash of its info, where a mint is given the hash of the info it
/// mints (as `UniqueAssets::mint_asset` and the dispatched `mint` are).
pub proof fn law_steps_keep_hashed_ids(
    s: Storage,
    config: Config,
    a: AccountId,
    id: Seq<u8>,
    info: Seq<u8>,
)
    requires
        registry_ok(s, config),
        ids_hashed(s),
    ensures
        ids_hashed(mint_step(s, config, a, commodity_hash(info), info).0),
        ids_hashed(burn_step(s, id).0),
        ids_hashed(transfer_step(s, config, a, id).0),
        ids_hashed(lock_step(s, id).0),
        ids_hashed(unlock_step(s, id).0),
        ids_hashed(force_transfer_step(s, config, a, id).0),
{
    let m = s.commodities_for_account;
    lemma_add_hashed(m, a, (commodity_hash(info), info));
    if s.account_for_commodity.contains_key(id) {
        let o = owner_of(s, id);
        let l = m[o];
        lemma_without_hashed(l, id);
        lemma_take_owned(s, id);
        lemma_id_index(l, id);
        let lists = m.insert(o, without_id(l, id));
        assert forall|b: AccountId| #[trigger] lists.contains_key(b) implies strictly_sorted(lists[b]) by {
            if b == o {
                lemma_id_index(l, id);
                crate::list::lemma_remove_sorted(l, id_index(l, id));
            }
        }
        lemma_add_hashed(lists, a, owned_commodity(s, id));
        let t = lock_step(s, id).0;
        assert forall|x: Seq<u8>| #[trigger] t.locked_commodities.contains_key(x) implies x
            == commodity_hash(t.locked_commodities[x].1) by {
            if x != id {
                assert(s.locked_commodities.contains_key(x));
            }
        }
    }
    if s.locked_commodities.contains_key(id) {
        let (o, i2) = s.locked_commodities[id];
        assert(m.contains_key(o));
        assert(id == commodity_hash(i2));
        lemma_add_hashed(m, o, (id, i2));
        lemma_add_hashed(m, a, (id, i2));
        let u = unlock_step(s, id).0;
        assert(u.commodities_for_account == crate::model::add_commodity(m, o, (id, i2)));
        assert forall|x: Seq<u8>| #[trigger] u.locked_commodities.contains_key(x) implies x
            == commodity_hash(u.locked_commodities[x].1) by {
            assert(s.locked_commodities.contains_key(x));
        }
    }
}


/// An empty registry meets the invariants.
pub proof fn law_empty_registry(config: Config)
    ensures
        registry_ok(empty_storage(), config),
        ids_hashed(empty_storage()),
{
    let s = empty_storage();
    assert forall|a: AccountId| #[trigger]
        count_in(s.total_for_account, a) == list_len(s, a) + locks_from(s.locked_commodities, a).len() by {
        assert(locks_from(s.locked_commodities, a) =~= Set::<Seq<u8>>::empty());
    }
    assert(s.account_for_commodity.dom() =~= Set::<Seq<u8>>::empty());
    assert(s.locked_commodities.dom() =~= Set::<Seq<u8>>::empty());
}

/// One call, refused or not, keeps the invariants and the identifiers hashed.
pub proof fn law_call_keeps_registry(s: Storage, config: Config, call: Call)
    requires
        registry_ok(s, config),
        ids_hashed(s),
    ensures
        registry_ok(call_step(s, config, call).0, config),
        ids_hashed(call_step(s, config, call).0),
{
    match call {
        Call::Mint(owner, info) => {
            law_mint_keeps_registry(s, config, owner, commodity_hash(info), info);
            law_steps_keep_hashed_ids(s, config, owner, Seq::empty(), info);
        },
        Call::Burn(id) => {
            law_burn_keeps_registry(s, config, id);
            law_steps_keep_hashed_ids(s, config, 0, id, Seq::empty());
        },
        Call::Transfer(dest, id) => {
            law_transfer_keeps_registry(s, config, dest, id);
            law_steps_keep_hashed_ids(s, config, dest, id, Seq::empty());
        },
        Call::Lock(id) => {
            law_lock_keeps_registry(s, config, id);
            law_steps_keep_hashed_ids(s, config, 0, id, Seq::empty());
        },
        Call::Unlock(id) => {
            law_unlock_keeps_registry(s, config, id);
            law_steps_keep_hashed_ids(s, config, 0, id, Seq::empty());
        },
        Call::ForceTransfer(dest, id) => {
            law_force_transfer_keeps_registry(s, config, dest, id);
            law_steps_keep_hashed_ids(s, config, dest, id, Seq::empty());
        },
    }
}

/// From an empty registry, after any sequence of calls with fewer burns than
/// `u128::MAX`: the invariants hold, every listed and locked commodity is
/// identified by the hash of its info, and the number of commodities that
/// exist plus the number burned is the number of successful mints.
pub proof fn law_run_from_empty(config: Config, calls: Seq<Call>)
    requires
        burn_calls(calls) < u128::MAX,
    ensures
        registry_ok(run(empty_storage(), config, calls), config),
        ids_hashed(run(empty_storage(), config, calls)),
        value_or_zero(run(empty_storage(), config, calls).total) + value_or_zero(
            run(empty_storage(), config, calls).burned,
        ) == successful_mints(empty_storage(), config, calls),
        value_or_zero(run(empty_storage(), config, calls).burned) <= burn_calls(calls),
    decreases calls.len(),
{
    if calls.len() == 0 {
        law_empty_registry(config);
    } else {
        let prev = calls.drop_last();
        lemma_burn_calls_nonneg(prev);
        law_run_from_empty(config, prev);
        let s = run(empty_storage(), config, prev);
        law_call_keeps_registry(s, config, calls.last());
        assert forall|id: Seq<u8>| s.account_for_commodity.contains_key(id) implies value_or_zero(
            s.total,
        ) >= 1 by {
            lemma_owned_counted(s, config, id);
        }
        match calls.last() {
            Call::Mint(owner, info) => {
                law_total_plus_burned(s, config, owner, commodity_hash(info), info);
            },
            Call::Burn(id) => {
                law_total_plus_burned(s, config, 0, id, Seq::empty());
            },
            Call::Transfer(dest, id) => {
                law_total_plus_burned(s, config, dest, id, Seq::empty());
            },
            Call::Lock(id) => {
                law_total_plus_burned(s, config, 0, id, Seq::empty());
            },
            Call::Unlock(id) => {
                law_total_plus_burned(s, config, 0, id, Seq::empty());
            },
            Call::ForceTransfer(dest, id) => {
                law_total_plus_burned(s, config, dest, id, Seq::empty());
            },
        }
    }
}

/// The number of burn calls is not negative.
pub proof fn lemma_burn_calls_nonneg(calls: Seq<Call>)
    ensures
        burn_calls(calls) >= 0,
    decreases calls.len(),
{
    if calls.len() > 0 {
        lemma_burn_calls_nonneg(calls.drop_last());
    }
}


/// Transferring a commodity to another account and back gives back the
/// storage, reading an absent count as zero and an absent list as empty.
pub proof fn law_transfer_there_and_back(s: Storage, config: Config, b: AccountId, id: Seq<u8>)
    requires
        registry_ok(s, config),
        transfer_step(s, config, b, id).1 is Ok,
        b != owner_of(s, id),
    ensures
        transfer_step(transfer_step(s, config, b, id).0, config, owner_of(s, id), id).1 is Ok,
        ({
            let u = transfer_step(transfer_step(s, config, b, id).0, config, owner_of(s, id), id).0;
            &&& u.total == s.total
            &&& u.burned == s.burned
            &&& u.account_for_commodity == s.account_for_commodity
            &&& u.locked_commodities == s.locked_commodities
        }),
        forall|x: AccountId|
            count_in(
                #[trigger] transfer_step(
                    transfer_step(s, config, b, id).0,
                    config,
                    owner_of(s, id),
                    id,
                ).0.total_for_account,
                x,
            ) == count_in(s.total_for_account, x),
        forall|x: AccountId|
            list_or_empty(
                #[trigger] transfer_step(
                    transfer_step(s, config, b, id).0,
                    config,
                    owner_of(s, id),
                    id,
                ).0,
                x,
            ) == list_or_empty(s, x),
{
    let a = owner_of(s, id);
    let t = transfer_step(s, config, b, id).0;
    let m = s.commodities_for_account;
    let l = m[a];
    let c = owned_commodity(s, id);
    lemma_owned_counted(s, config, id);
    lemma_take_owned(s, id);
    lemma_id_index(l, id);
    assert(count_in(s.total_for_account, a) <= config.user_commodity_limit);
    assert(owner_of(t, id) == b);
    if m.contains_key(b) {
        lemma_unowned_absent_for(s, b, id);
        lemma_insert_then_without(m[b], c);
    } else {
        assert(seq![c][0] == c);
        assert(id_index(seq![c], id) == 0);
        assert(seq![c].remove(0) =~= Seq::<CommodityView>::empty());
    }
    assert(owned_commodity(t, id) == c);
    lemma_remove_reinsert(l, id_index(l, id));
    let u = transfer_step(t, config, a, id).0;
    assert(u.account_for_commodity =~= s.account_for_commodity);
    assert forall|x: AccountId| list_or_empty(#[trigger] transfer_step(t, config, a, id).0, x)
        == list_or_empty(s, x) by {
    }
}

/// No list but its owner's holds an entry for an owned identifier.
pub proof fn lemma_unowned_absent_for(s: Storage, b: AccountId, x: Seq<u8>)
    requires
        crate::model::single_ownership(s),
        s.commodities_for_account.contains_key(b),
        s.account_for_commodity.contains_key(x),
        s.account_for_commodity[x] != b,
    ensures
        id_index(s.commodities_for_account[b], x) < 0,
{
    let l = s.commodities_for_account[b];
    lemma_id_index(l, x);
    if id_index(l, x) >= 0 {
        assert(s.account_for_commodity.contains_key(l[id_index(l, x)].0));
    }
}


/// When a mint succeeds, and otherwise which refusal comes: a duplicate
/// (owned or locked) first, then the owner's limit, then the limit on the
/// number that exist (minted - burned); the burned count never refuses. On
/// success the owner owns the commodity, the total and the owner's count grow
/// by one, and nothing else is counted differently.
pub proof fn law_mint_outcome(
    s: Storage,
    config: Config,
    owner: AccountId,
    id: Seq<u8>,
    info: Seq<u8>,
)
    ensures
        mint_step(s, config, owner, id, info).1 == if s.account_for_commodity.contains_key(id)
            || s.locked_commodities.contains_key(id) {
            Err::<(), Error>(Error::CommodityExists)
        } else if count_in(s.total_for_account, owner) >= config.user_commodity_limit {
            Err::<(), Error>(Error::TooManyCommoditiesForAccount)
        } else if value_or_zero(s.total) >= config.commodity_limit {
            Err::<(), Error>(Error::TooManyCommodities)
        } else {
            Ok::<(), Error>(())
        },
        mint_step(s, config, owner, id, info).1 is Ok ==> {
            let t = mint_step(s, config, owner, id, info).0;
            &&& t.account_for_commodity.contains_key(id)
            &&& t.account_for_commodity[id] == owner
            &&& value_or_zero(t.total) == value_or_zero(s.total) + 1
            &&& t.burned == s.burned
            &&& count_in(t.total_for_account, owner) == count_in(s.total_for_account, owner) + 1
            &&& forall|b: AccountId|
                b != owner ==> #[trigger] count_in(t.total_for_account, b) == count_in(
                    s.total_for_account,
                    b,
                )
            &&& t.locked_commodities == s.locked_commodities
        },
{
}

/// When a burn succeeds: exactly when the commodity has an owner (whoever
/// that is, account `0` too). On success it has no owner any more, the total
/// and the owner's count shrink by one and the burned count grows by one
/// (wrapping).
pub proof fn law_burn_outcome(s: Storage, config: Config, id: Seq<u8>)
    requires
        registry_ok(s, config),
    ensures
        burn_step(s, id).1 == if s.account_for_commodity.contains_key(id) {
            Ok::<(), Error>(())
        } else {
            Err::<(), Error>(Error::NonexistentCommodity)
        },
        burn_step(s, id).1 is Ok ==> {
            let t = burn_step(s, id).0;
            let o = s.account_for_commodity[id];
            &&& !t.account_for_commodity.contains_key(id)
            &&& value_or_zero(t.total) == value_or_zero(s.total) - 1
            &&& value_or_zero(t.burned) == if value_or_zero(s.burned) == u128::MAX {
                0
            } else {
                value_or_zero(s.burned) + 1
            }
            &&& count_in(t.total_for_account, o) == count_in(s.total_for_account, o) - 1
            &&& forall|b: AccountId|
                b != o ==> #[trigger] count_in(t.total_for_account, b) == count_in(
                    s.total_for_account,
                    b,
                )
        },
{
    if s.account_for_commodity.contains_key(id) {
        lemma_owned_counted(s, config, id);
    }
}

/// When a transfer succeeds: exactly when the commodity has an owner and the
/// receiver owns fewer than the per-account maximum; nothing else, and not
/// the sender's count, can refuse it. On success the receiver owns it, the
/// sender's count shrinks by one and the receiver's grows by one, and the
/// total and burned counts are unchanged.
pub proof fn law_transfer_outcome(s: Storage, config: Config, dest: AccountId, id: Seq<u8>)
    requires
        registry_ok(s, config),
    ensures
        transfer_step(s, config, dest, id).1 == if !s.account_for_commodity.contains_key(id) {
            Err::<(), Error>(Error::NonexistentCommodity)
        } else if count_in(s.total_for_account, dest) >= config.user_commodity_limit {
            Err::<(), Error>(Error::TooManyCommoditiesForAccount)
        } else {
            Ok::<(), Error>(())
        },
        transfer_step(s, config, dest, id).1 is Ok ==> {
            let t = transfer_step(s, config, dest, id).0;
            let o = s.account_for_commodity[id];
            &&& t.account_for_commodity.contains_key(id)
            &&& t.account_for_commodity[id] == dest
            &&& t.total == s.total
            &&& t.burned == s.burned
            &&& o != dest ==> count_in(t.total_for_account, o) == count_in(s.total_for_account, o)
                - 1
            &&& o != dest ==> count_in(t.total_for_account, dest) == count_in(
                s.total_for_account,
                dest,
            ) + 1
            &&& o == dest ==> count_in(t.total_for_account, o) == count_in(s.total_for_account, o)
            &&& forall|b: AccountId|
                b != o && b != dest ==> #[trigger] count_in(t.total_for_account, b) == count_in(
                    s.total_for_account,
                    b,
                )
        },
{
    if s.account_for_commodity.contains_key(id) {
        lemma_owned_counted(s, config, id);
    }
}

/// When a lock succeeds: exactly when the commodity has an owner, whatever
/// other locks exist. On success it has no owner, it is locked with its
/// owner and the info its owner held, it is gone from the owner's list, and
/// no count changes.
pub proof fn law_lock_outcome(s: Storage, config: Config, id: Seq<u8>)
    requires
        registry_ok(s, config),
    ensures
        lock_step(s, id).1 == if s.account_for_commodity.contains_key(id) {
            Ok::<(), Error>(())
        } else {
            Err::<(), Error>(Error::NonexistentCommodity)
        },
        lock_step(s, id).1 is Ok ==> {
            let t = lock_step(s, id).0;
            let o = s.account_for_commodity[id];
            &&& !t.account_for_commodity.contains_key(id)
            &&& t.locked_commodities.contains_key(id)
            &&& t.locked_commodities[id].0 == o
            &&& s.commodities_for_account[o].contains((id, t.locked_commodities[id].1))
            &&& id_index(t.commodities_for_account[o], id) < 0
            &&& t.total_for_account == s.total_for_account
            &&& t.total == s.total
        },
{
    if s.account_for_commodity.contains_key(id) {
        let o = s.account_for_commodity[id];
        let l = s.commodities_for_account[o];
        lemma_take_owned(s, id);
        lemma_id_index(l, id);
        assert(l[id_index(l, id)] == (id, l[id_index(l, id)].1));
        let r = without_id(l, id);
        lemma_id_index(r, id);
        if id_index(r, id) >= 0 {
            assert(r[id_index(r, id)].0 != id);
        }
    }
}

/// When an unlock succeeds: exactly when the commodity is locked. On success
/// the account it was taken from owns it again, it is no longer locked, and
/// no count changes.
pub proof fn law_unlock_outcome(s: Storage, config: Config, id: Seq<u8>)
    ensures
        unlock_step(s, id).1 == if s.locked_commodities.contains_key(id) {
            Ok::<(), Error>(())
        } else {
            Err::<(), Error>(Error::NonexistentCommodity)
        },
        unlock_step(s, id).1 is Ok ==> {
            let t = unlock_step(s, id).0;
            &&& t.account_for_commodity.contains_key(id)
            &&& t.account_for_commodity[id] == s.locked_commodities[id].0
            &&& !t.locked_commodities.contains_key(id)
            &&& t.total_for_account == s.total_for_account
            &&& t.total == s.total
        },
{
}

/// When a forced transfer succeeds: a commodity that is not locked is
/// transferred exactly as `transfer` does; a locked one goes to the receiver
/// exactly when the receiver owns fewer than the per-account maximum. On
/// success the receiver owns it, it is not locked, the account it was taken
/// from counts one less and the receiver one more, and the total is unchanged.
pub proof fn law_force_transfer_outcome(s: Storage, config: Config, dest: AccountId, id: Seq<u8>)
    requires
        registry_ok(s, config),
    ensures
        !s.locked_commodities.contains_key(id) ==> force_transfer_step(s, config, dest, id)
            == transfer_step(s, config, dest, id),
        s.locked_commodities.contains_key(id) ==> force_transfer_step(s, config, dest, id).1 == if count_in(
            s.total_for_account,
            dest,
        ) >= config.user_commodity_limit {
            Err::<(), Error>(Error::TooManyCommoditiesForAccount)
        } else {
            Ok::<(), Error>(())
        },
        s.locked_commodities.contains_key(id) && force_transfer_step(s, config, dest, id).1 is Ok
            ==> {
            let t = force_transfer_step(s, config, dest, id).0;
            let o = s.locked_commodities[id].0;
            &&& t.account_for_commodity.contains_key(id)
            &&& t.account_for_commodity[id] == dest
            &&& !t.locked_commodities.contains_key(id)
            &&& t.total == s.total
            &&& o != dest ==> count_in(t.total_for_account, o) == count_in(s.total_for_account, o)
                - 1
            &&& o != dest ==> count_in(t.total_for_account, dest) == count_in(
                s.total_for_account,
                dest,
            ) + 1
            &&& o == dest ==> count_in(t.total_for_account, o) == count_in(s.total_for_account, o)
        },
{
    if s.locked_commodities.contains_key(id) {
        lemma_locked_counted(s, config, id);
    }
}

} // verus!
