use pallet_commodities::UniqueAssets;
use pallet_commodities::{CommodityAdmin, CommodityId, Config, DispatchError, Error, Origin, Pallet};
use parity_scale_codec::Encode;

/// The registry of the test runtime: the root mints, at most five
/// commodities exist, and an account owns at most two.
fn new_test_ext() -> Pallet {
    Pallet::new(Config {
        commodity_admin: CommodityAdmin::Root,
        commodity_limit: 5,
        user_commodity_limit: 2,
    })
}

/// The identifier of a commodity: BLAKE2b-256 of the SCALE encoding of its info.
fn id_of(info: &Vec<u8>) -> CommodityId {
    <sp_core::Blake2Hasher as sp_core::Hasher>::hash(&info.encode()).0
}

#[test]
fn mint() {
    let mut sut = new_test_ext();
    assert_eq!(sut.total(), None);
    assert_eq!(sut.total_for_account(1), None);
    assert_eq!(UniqueAssets::total_assets(&sut), 0);
    assert_eq!(UniqueAssets::total_assets_for_account(&sut, &1), 0);
    assert_eq!(sut.account_for_commodity(id_of(&Vec::<u8>::default())), None);

    assert_eq!(sut.mint(Origin::Root, 1, Vec::<u8>::default()), Ok(()));

    assert_eq!(sut.total(), Some(1));
    assert_eq!(UniqueAssets::total_assets(&sut), 1);
    assert_eq!(sut.burned(), None);
    assert_eq!(UniqueAssets::burned_assets(&sut), 0);
    assert_eq!(sut.total_for_account(1), Some(1));
    assert_eq!(UniqueAssets::total_assets_for_account(&sut, &1), 1);
    let commodities_for_account = sut.commodities_for_account(1);
    assert_eq!(commodities_for_account.as_ref().unwrap().len(), 1);
    assert_eq!(commodities_for_account.as_ref().unwrap()[0].0, id_of(&Vec::<u8>::default()));
    assert_eq!(commodities_for_account.as_ref().unwrap()[0].1, Vec::<u8>::default());
    assert_eq!(sut.account_for_commodity(id_of(&Vec::<u8>::default())), Some(1));
}

#[test]
fn mint_err_non_admin() {
    let mut sut = new_test_ext();
    assert_eq!(sut.mint(Origin::Signed(1), 1, Vec::<u8>::default()), Err(DispatchError::BadOrigin));
}

#[test]
fn mint_err_dupe() {
    let mut sut = new_test_ext();
    assert_eq!(sut.mint(Origin::Root, 1, Vec::<u8>::default()), Ok(()));

    assert_eq!(
        sut.mint(Origin::Root, 2, Vec::<u8>::default()),
        Err(DispatchError::Module(Error::CommodityExists))
    );
}

#[test]
fn mint_err_max_user() {
    let mut sut = new_test_ext();
    assert_eq!(sut.mint(Origin::Root, 1, vec![]), Ok(()));
    assert_eq!(sut.mint(Origin::Root, 1, vec![0]), Ok(()));

    assert_eq!(
        sut.mint(Origin::Root, 1, vec![1]),
        Err(DispatchError::Module(Error::TooManyCommoditiesForAccount))
    );
}

#[test]
fn mint_err_max() {
    let mut sut = new_test_ext();
    assert_eq!(sut.mint(Origin::Root, 1, vec![]), Ok(()));
    assert_eq!(sut.mint(Origin::Root, 2, vec![0]), Ok(()));
    assert_eq!(sut.mint(Origin::Root, 3, vec![1]), Ok(()));
    assert_eq!(sut.mint(Origin::Root, 4, vec![2]), Ok(()));
    assert_eq!(sut.mint(Origin::Root, 5, vec![3]), Ok(()));

    assert_eq!(
        sut.mint(Origin::Root, 6, vec![4]),
        Err(DispatchError::Module(Error::TooManyCommodities))
    );
}

#[test]
fn burn() {
    let mut sut = new_test_ext();
    assert_eq!(sut.mint(Origin::Root, 1, Vec::<u8>::default()), Ok(()));
    assert_eq!(sut.burn(Origin::Signed(1), id_of(&Vec::<u8>::default())), Ok(()));

    assert_eq!(sut.total(), Some(0));
    assert_eq!(sut.burned(), Some(1));
    assert_eq!(sut.total_for_account(1), Some(0));
    assert_eq!(sut.commodities_for_account(1), Some(vec![]));
    assert_eq!(sut.account_for_commodity(id_of(&Vec::<u8>::default())), None);
}

#[test]
fn burn_err_not_owner() {
    let mut sut = new_test_ext();
    assert_eq!(sut.mint(Origin::Root, 1, Vec::<u8>::default()), Ok(()));

    assert_eq!(
        sut.burn(Origin::Signed(2), id_of(&Vec::<u8>::default())),
        Err(DispatchError::Module(Error::NotCommodityOwner))
    );
}

#[test]
fn burn_err_not_exist() {
    let mut sut = new_test_ext();
    assert_eq!(
        sut.burn(Origin::Signed(1), id_of(&Vec::<u8>::default())),
        Err(DispatchError::Module(Error::NotCommodityOwner))
    );
}

#[test]
fn transfer() {
    let mut sut = new_test_ext();
    assert_eq!(sut.mint(Origin::Root, 1, Vec::<u8>::default()), Ok(()));
    assert_eq!(sut.transfer(Origin::Signed(1), 2, id_of(&Vec::<u8>::default())), Ok(()));

    assert_eq!(sut.total(), Some(1));
    assert_eq!(sut.burned(), None);
    assert_eq!(sut.total_for_account(1), Some(0));
    assert_eq!(sut.total_for_account(2), Some(1));
    assert_eq!(sut.commodities_for_account(1), Some(vec![]));
    let commodities_for_account = sut.commodities_for_account(2);
    assert_eq!(commodities_for_account.as_ref().unwrap().len(), 1);
    assert_eq!(commodities_for_account.as_ref().unwrap()[0].0, id_of(&Vec::<u8>::default()));
    assert_eq!(commodities_for_account.unwrap()[0].1, Vec::<u8>::default());
    assert_eq!(sut.account_for_commodity(id_of(&Vec::<u8>::default())), Some(2));
}

#[test]
fn transfer_err_not_owner() {
    let mut sut = new_test_ext();
    assert_eq!(sut.mint(Origin::Root, 1, Vec::<u8>::default()), Ok(()));

    assert_eq!(
        sut.transfer(Origin::Signed(0), 2, id_of(&Vec::<u8>::default())),
        Err(DispatchError::Module(Error::NotCommodityOwner))
    );
}

#[test]
fn transfer_err_not_exist() {
    let mut sut = new_test_ext();
    assert_eq!(
        sut.transfer(Origin::Signed(1), 2, id_of(&Vec::<u8>::default())),
        Err(DispatchError::Module(Error::NotCommodityOwner))
    );
}

#[test]
fn transfer_err_max_user() {
    let mut sut = new_test_ext();
    assert_eq!(sut.mint(Origin::Root, 1, vec![0]), Ok(()));
    assert_eq!(sut.mint(Origin::Root, 1, vec![1]), Ok(()));
    assert_eq!(sut.mint(Origin::Root, 2, Vec::<u8>::default()), Ok(()));
    assert_eq!(sut.account_for_commodity(id_of(&Vec::<u8>::default())), Some(2));

    assert_eq!(
        sut.transfer(Origin::Signed(2), 1, id_of(&Vec::<u8>::default())),
        Err(DispatchError::Module(Error::TooManyCommoditiesForAccount))
    );
}
