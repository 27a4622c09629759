use pallet_commodities::{
    CommodityAdmin, CommodityId, Config, DispatchError, Error, Event, GenesisConfig,
    LockableUniqueAssets, Origin, Pallet, UniqueAssets,
};
use pallet_commodities::list::{find_id, insert_commodity, search_commodity, take_id};
use pallet_commodities::order::{compare_bytes, Comparison};
use parity_scale_codec::Encode;

fn registry(commodity_limit: u128, user_commodity_limit: u64) -> Pallet {
    Pallet::new(Config {
        commodity_admin: CommodityAdmin::Root,
        commodity_limit,
        user_commodity_limit,
    })
}

fn hash_of(info: &Vec<u8>) -> CommodityId {
    <sp_core::Blake2Hasher as sp_core::Hasher>::hash(&info.encode()).0
}

#[test]
fn identifier_is_the_hash_of_the_encoded_info() {
    let mut p = registry(10, 10);
    let info = vec![1u8, 2, 3];
    let id = UniqueAssets::mint_asset(&mut p, &7, info.clone()).unwrap();
    assert_eq!(id, hash_of(&info));
    assert_ne!(id.to_vec(), info);
    assert_ne!(id, hash_of(&vec![1u8, 2, 4]));
    assert_eq!(p.account_for_commodity(id), Some(7));
}

#[test]
fn mint_from_a_signed_admin_account() {
    let mut p = Pallet::new(Config {
        commodity_admin: CommodityAdmin::Account(9),
        commodity_limit: 10,
        user_commodity_limit: 10,
    });
    assert_eq!(p.mint(Origin::Root, 1, vec![5]), Err(DispatchError::BadOrigin));
    assert_eq!(p.mint(Origin::Unsigned, 1, vec![5]), Err(DispatchError::BadOrigin));
    assert_eq!(p.mint(Origin::Signed(8), 1, vec![5]), Err(DispatchError::BadOrigin));
    assert_eq!(p.mint(Origin::Signed(9), 1, vec![5]), Ok(()));
    assert_eq!(p.events(), &vec![Event::Minted(hash_of(&vec![5]), 1)]);
}

#[test]
fn dispatched_calls_deposit_events() {
    let mut p = registry(10, 10);
    let id = hash_of(&vec![4]);
    assert_eq!(p.mint(Origin::Root, 1, vec![4]), Ok(()));
    assert_eq!(p.transfer(Origin::Signed(1), 2, id), Ok(()));
    assert_eq!(p.burn(Origin::Signed(2), id), Ok(()));
    assert_eq!(
        p.events(),
        &vec![Event::Minted(id, 1), Event::Transferred(id, 2), Event::Burned(id)]
    );
    // refused calls deposit nothing
    assert_eq!(p.burn(Origin::Signed(2), id), Err(DispatchError::Module(Error::NotCommodityOwner)));
    assert_eq!(p.events().len(), 3);
}

#[test]
fn unsigned_burn_and_transfer_are_bad_origins() {
    let mut p = registry(10, 10);
    let id = hash_of(&vec![]);
    assert_eq!(p.mint(Origin::Root, 1, vec![]), Ok(()));
    assert_eq!(p.burn(Origin::Root, id), Err(DispatchError::BadOrigin));
    assert_eq!(p.transfer(Origin::Unsigned, 2, id), Err(DispatchError::BadOrigin));
    assert_eq!(p.account_for_commodity(id), Some(1));
}

#[test]
fn burn_a_commodity_whose_info_is_not_the_default() {
    let mut p = registry(10, 10);
    let id = hash_of(&vec![7, 7]);
    assert_eq!(p.mint(Origin::Root, 3, vec![7, 7]), Ok(()));
    assert_eq!(p.burn(Origin::Signed(3), id), Ok(()));
    assert_eq!(p.commodities_for_account(3), Some(vec![]));
    assert_eq!(p.total(), Some(0));
}

#[test]
fn lists_are_sorted_by_identifier() {
    let mut p = registry(10, 10);
    let infos = vec![vec![1u8], vec![2u8], vec![3u8], vec![4u8]];
    for info in &infos {
        assert_eq!(p.mint(Origin::Root, 1, info.clone()), Ok(()));
    }
    let list = p.commodities_for_account(1).unwrap();
    assert_eq!(list.len(), 4);
    for w in list.windows(2) {
        assert!(w[0].0 < w[1].0);
    }
    assert_eq!(UniqueAssets::assets_for_account(&p, &1), list);
    assert_eq!(UniqueAssets::assets_for_account(&p, &2), vec![]);
}

#[test]
fn nonexistent_commodity_errors() {
    let mut p = registry(10, 10);
    let id = hash_of(&vec![9]);
    assert_eq!(UniqueAssets::burn_asset(&mut p, &id), Err(Error::NonexistentCommodity));
    assert_eq!(UniqueAssets::transfer_asset(&mut p, &2, &id), Err(Error::NonexistentCommodity));
    assert_eq!(LockableUniqueAssets::lock(&mut p, &id), Err(Error::NonexistentCommodity));
    assert_eq!(LockableUniqueAssets::unlock(&mut p, &id), Err(Error::NonexistentCommodity));
    assert_eq!(
        LockableUniqueAssets::force_transfer(&mut p, &2, &id),
        Err(Error::NonexistentCommodity)
    );
    assert_eq!(UniqueAssets::owner_of(&p, &id), 0);
}

#[test]
fn the_owner_account_zero_can_burn() {
    let mut p = registry(10, 10);
    let id = hash_of(&vec![1]);
    assert_eq!(p.mint(Origin::Root, 0, vec![1]), Ok(()));
    assert_eq!(p.account_for_commodity(id), Some(0));
    assert_eq!(p.burn(Origin::Signed(0), id), Ok(()));
    assert_eq!(p.account_for_commodity(id), None);
    assert_eq!(p.total(), Some(0));
}

#[test]
fn the_info_of_a_locked_commodity_cannot_be_minted() {
    let mut p = registry(10, 10);
    let id = hash_of(&vec![]);
    assert_eq!(p.mint(Origin::Root, 1, vec![]), Ok(()));
    assert_eq!(LockableUniqueAssets::lock(&mut p, &id), Ok(()));
    assert_eq!(p.mint(Origin::Root, 2, vec![]), Err(DispatchError::Module(Error::CommodityExists)));
    assert_eq!(p.total(), Some(1));
    assert_eq!(p.account_for_commodity(id), None);
    assert_eq!(p.locked_commodities(id), Some((1, vec![])));
}

#[test]
fn lock_then_unlock_restores_the_registry() {
    let mut p = registry(10, 10);
    let id = hash_of(&vec![3]);
    assert_eq!(p.mint(Origin::Root, 1, vec![3]), Ok(()));
    assert_eq!(p.mint(Origin::Root, 1, vec![4]), Ok(()));
    let before = p.commodities_for_account(1);
    assert_eq!(LockableUniqueAssets::lock(&mut p, &id), Ok(()));
    assert_eq!(p.account_for_commodity(id), None);
    assert_eq!(p.locked_commodities(id), Some((1, vec![3])));
    assert_eq!(p.commodities_for_account(1).unwrap().len(), 1);
    assert_eq!(p.total_for_account(1), Some(2));
    assert_eq!(LockableUniqueAssets::unlock(&mut p, &id), Ok(()));
    assert_eq!(p.commodities_for_account(1), before);
    assert_eq!(p.account_for_commodity(id), Some(1));
    assert_eq!(p.locked_commodities(id), None);
}

#[test]
fn force_transfer_of_a_locked_commodity() {
    let mut p = registry(10, 10);
    let id = hash_of(&vec![3]);
    assert_eq!(p.mint(Origin::Root, 1, vec![3]), Ok(()));
    assert_eq!(LockableUniqueAssets::lock(&mut p, &id), Ok(()));
    assert_eq!(LockableUniqueAssets::force_transfer(&mut p, &2, &id), Ok(()));
    assert_eq!(p.account_for_commodity(id), Some(2));
    assert_eq!(p.locked_commodities(id), None);
    assert_eq!(p.total_for_account(1), Some(0));
    assert_eq!(p.total_for_account(2), Some(1));
    assert_eq!(p.commodities_for_account(2), Some(vec![(id, vec![3])]));
    assert_eq!(p.total(), Some(1));
}

#[test]
fn force_transfer_of_an_unlocked_commodity_is_a_transfer() {
    let mut p = registry(10, 10);
    let id = hash_of(&vec![3]);
    assert_eq!(p.mint(Origin::Root, 1, vec![3]), Ok(()));
    assert_eq!(LockableUniqueAssets::force_transfer(&mut p, &2, &id), Ok(()));
    assert_eq!(p.account_for_commodity(id), Some(2));
    assert_eq!(p.commodities_for_account(1), Some(vec![]));
    assert_eq!(p.commodities_for_account(2), Some(vec![(id, vec![3])]));
}

#[test]
fn force_transfer_to_a_full_account_keeps_the_lock() {
    let mut p = registry(10, 1);
    let id = hash_of(&vec![3]);
    assert_eq!(p.mint(Origin::Root, 1, vec![3]), Ok(()));
    assert_eq!(p.mint(Origin::Root, 2, vec![4]), Ok(()));
    assert_eq!(LockableUniqueAssets::lock(&mut p, &id), Ok(()));
    assert_eq!(
        LockableUniqueAssets::force_transfer(&mut p, &2, &id),
        Err(Error::TooManyCommoditiesForAccount)
    );
    assert_eq!(p.locked_commodities(id), Some((1, vec![3])));
    assert_eq!(p.account_for_commodity(id), None);
    assert_eq!(p.total_for_account(1), Some(1));
    assert_eq!(p.total_for_account(2), Some(1));
    assert_eq!(LockableUniqueAssets::unlock(&mut p, &id), Ok(()));
    assert_eq!(p.account_for_commodity(id), Some(1));
}

#[test]
fn mint_then_burn_restores_all_but_the_burned_count() {
    let mut p = registry(10, 10);
    assert_eq!(p.mint(Origin::Root, 1, vec![1]), Ok(()));
    let total = p.total();
    let count = p.total_for_account(1);
    let list = p.commodities_for_account(1);
    let id = hash_of(&vec![2]);
    assert_eq!(p.mint(Origin::Root, 1, vec![2]), Ok(()));
    assert_eq!(p.burn(Origin::Signed(1), id), Ok(()));
    assert_eq!(p.total(), total);
    assert_eq!(p.total_for_account(1), count);
    assert_eq!(p.commodities_for_account(1), list);
    assert_eq!(p.account_for_commodity(id), None);
    assert_eq!(p.burned(), Some(1));
}

#[test]
fn transfer_keeps_the_total() {
    let mut p = registry(10, 10);
    let id = hash_of(&vec![1]);
    assert_eq!(p.mint(Origin::Root, 1, vec![1]), Ok(()));
    assert_eq!(p.mint(Origin::Root, 2, vec![2]), Ok(()));
    assert_eq!(p.transfer(Origin::Signed(1), 2, id), Ok(()));
    assert_eq!(p.total(), Some(2));
    assert_eq!(UniqueAssets::owner_of(&p, &id), 2);
    assert_eq!(UniqueAssets::total_assets_for_account(&p, &2), 2);
}

#[test]
fn refused_calls_change_nothing() {
    let mut p = registry(2, 1);
    assert_eq!(p.mint(Origin::Root, 1, vec![1]), Ok(()));
    let snapshot = (p.total(), p.total_for_account(1), p.commodities_for_account(1));
    assert_eq!(
        p.mint(Origin::Root, 1, vec![2]),
        Err(DispatchError::Module(Error::TooManyCommoditiesForAccount))
    );
    assert_eq!(p.mint(Origin::Root, 2, vec![1]), Err(DispatchError::Module(Error::CommodityExists)));
    assert_eq!(snapshot, (p.total(), p.total_for_account(1), p.commodities_for_account(1)));
    assert_eq!(p.total_for_account(2), None);
    assert_eq!(p.commodities_for_account(2), None);
}

#[test]
fn genesis_mints_the_balances() {
    let mut p = registry(10, 10);
    let g = GenesisConfig { balances: vec![(1, vec![vec![1], vec![2]]), (2, vec![vec![3]])] };
    assert_eq!(g.build(&mut p), Ok(()));
    assert_eq!(p.total(), Some(3));
    assert_eq!(p.total_for_account(1), Some(2));
    assert_eq!(p.account_for_commodity(hash_of(&vec![3])), Some(2));
    assert!(p.events().is_empty());
}

#[test]
fn genesis_stops_at_the_first_refusal() {
    let mut p = registry(10, 1);
    let g = GenesisConfig { balances: vec![(1, vec![vec![1], vec![2]]), (2, vec![vec![3]])] };
    assert_eq!(g.build(&mut p), Err(Error::TooManyCommoditiesForAccount));
    assert_eq!(p.total(), Some(1));
    assert_eq!(p.account_for_commodity(hash_of(&vec![3])), None);
}

#[test]
fn default_genesis_is_empty() {
    let mut p = registry(10, 10);
    let g = GenesisConfig::default();
    assert!(g.balances.is_empty());
    assert_eq!(g.build(&mut p), Ok(()));
    assert_eq!(p.total(), None);
}

#[test]
fn burned_counts_every_burn() {
    let mut p = registry(10, 10);
    for i in 0..3u8 {
        assert_eq!(p.mint(Origin::Root, 1, vec![i]), Ok(()));
        assert_eq!(p.burn(Origin::Signed(1), hash_of(&vec![i])), Ok(()));
    }
    assert_eq!(p.burned(), Some(3));
    assert_eq!(UniqueAssets::burned_assets(&p), 3);
    assert_eq!(UniqueAssets::total_assets(&p), 0);
}

#[test]
fn config_is_kept() {
    let p = registry(4, 3);
    assert_eq!(p.config().commodity_limit, 4);
    assert_eq!(p.config().user_commodity_limit, 3);
    assert_eq!(p.config().commodity_admin, CommodityAdmin::Root);
}

#[test]
fn bytes_compare_lexicographically() {
    assert_eq!(compare_bytes(&[1, 2], &[1, 3]), Comparison::Less);
    assert_eq!(compare_bytes(&[1, 2], &[1, 2, 0]), Comparison::Less);
    assert_eq!(compare_bytes(&[2], &[1, 9]), Comparison::Greater);
    assert_eq!(compare_bytes(&[], &[]), Comparison::Equal);
    assert_eq!(compare_bytes(&[5, 5], &[5, 5]), Comparison::Equal);
}

#[test]
fn sorted_insert_and_take_by_identifier() {
    let a = ([1u8; 32], vec![1u8]);
    let b = ([2u8; 32], vec![]);
    let c = ([2u8; 32], vec![0u8]);
    let mut l = Vec::new();
    insert_commodity(&mut l, c.clone());
    insert_commodity(&mut l, a.clone());
    insert_commodity(&mut l, b.clone());
    insert_commodity(&mut l, a.clone());
    assert_eq!(l, vec![a.clone(), b.clone(), c.clone()]);
    assert_eq!(search_commodity(&l, &b), Ok(1));
    assert_eq!(search_commodity(&l, &([1u8; 32], vec![2u8])), Err(1));
    assert_eq!(find_id(&l, &[2u8; 32]), Some(1));
    assert_eq!(find_id(&l, &[3u8; 32]), None);
    assert_eq!(take_id(&mut l, &[2u8; 32]), Some(b));
    assert_eq!(l, vec![a, c]);
}

#[test]
fn transfer_there_and_back_restores_the_lists() {
    let mut p = registry(10, 10);
    let id = hash_of(&vec![6]);
    assert_eq!(p.mint(Origin::Root, 1, vec![6]), Ok(()));
    assert_eq!(p.mint(Origin::Root, 1, vec![7]), Ok(()));
    let before = p.commodities_for_account(1);
    assert_eq!(p.transfer(Origin::Signed(1), 2, id), Ok(()));
    assert_eq!(p.transfer(Origin::Signed(2), 1, id), Ok(()));
    assert_eq!(p.commodities_for_account(1), before);
    assert_eq!(p.commodities_for_account(2), Some(vec![]));
    assert_eq!(p.total_for_account(1), Some(2));
    assert_eq!(p.total_for_account(2), Some(0));
    assert_eq!(p.account_for_commodity(id), Some(1));
}
