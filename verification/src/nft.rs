//! The interfaces of a registry of unique assets.
use vstd::prelude::*;

use crate::types::{AccountId, Commodity, CommodityId, CommodityInfo, Error};

verus! {

/// A registry of unique assets, each identified by the hash of the info that defines it.
pub trait UniqueAssets {
    /// The registry's invariants.
    spec fn well_formed(&self) -> bool;

    /// The number of assets that exist (minted - burned).
    fn total_assets(&self) -> u128;

    /// The number of assets that have been burned.
    fn burned_assets(&self) -> u128;

    /// The number of assets that an account owns.
    fn total_assets_for_account(&self, account: &AccountId) -> u64
        requires
            self.well_formed(),
    ;

    /// The assets that an account owns.
    fn assets_for_account(&self, account: &AccountId) -> Vec<Commodity>
        requires
            self.well_formed(),
    ;

    /// The owner of an asset, or the default account where it has none.
    fn owner_of(&self, commodity_id: &CommodityId) -> AccountId
        requires
            self.well_formed(),
    ;

    /// Creates an asset from its info for an account, and returns its
    /// identifier. The info's length must fit in a `u32`, as its encoding
    /// for hashing requires.
    fn mint_asset(&mut self, owner_account: &AccountId, commodity_info: CommodityInfo) -> (r: Result<
        CommodityId,
        Error,
    >)
        requires
            old(self).well_formed(),
            commodity_info@.len() <= u32::MAX,
        ensures
            final(self).well_formed(),
    ;

    /// Destroys an asset.
    fn burn_asset(&mut self, commodity_id: &CommodityId) -> (r: Result<(), Error>)
        requires
            old(self).well_formed(),
        ensures
            final(self).well_formed(),
    ;

    /// Gives an asset to another account.
    fn transfer_asset(&mut self, dest_account: &AccountId, commodity_id: &CommodityId) -> (r: Result<
        (),
        Error,
    >)
        requires
            old(self).well_formed(),
        ensures
            final(self).well_formed(),
    ;
}

/// A registry of unique assets that can be locked, taking them out of their
/// owner's hands until they are unlocked or given away.
pub trait LockableUniqueAssets: UniqueAssets {
    /// Locks an asset.
    fn lock(&mut self, commodity_id: &CommodityId) -> (r: Result<(), Error>)
        requires
            old(self).well_formed(),
        ensures
            final(self).well_formed(),
    ;

    /// Gives a locked asset back to the account it was taken from.
    fn unlock(&mut self, commodity_id: &CommodityId) -> (r: Result<(), Error>)
        requires
            old(self).well_formed(),
        ensures
            final(self).well_formed(),
    ;

    /// Gives an asset, locked or not, to another account.
    fn force_transfer(&mut self, dest_account: &AccountId, commodity_id: &CommodityId) -> (r: Result<
        (),
        Error,
    >)
        requires
            old(self).well_formed(),
        ensures
            final(self).well_formed(),
    ;
}

} // verus!
