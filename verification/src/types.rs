use vstd::prelude::*;

verus! {

/// An account on the chain. Account `0` is the default account, which
/// `owner_of` answers for a commodity that has no owner.
pub type AccountId = u64;

/// The identifier of a commodity: the 32-byte runtime hash of its info.
pub type CommodityId = [u8; 32];

/// The data that defines a commodity.
pub type CommodityInfo = Vec<u8>;

/// A commodity together with its identifier.
pub type Commodity = (CommodityId, CommodityInfo);

/// A commodity as a mathematical value: the bytes of its identifier and of its info.
pub type CommodityView = (Seq<u8>, Seq<u8>);

/// The mathematical value of a commodity.
pub open spec fn commodity_view(c: Commodity) -> CommodityView {
    (c.0@, c.1@)
}

/// The mathematical value of a list of commodities.
pub open spec fn commodities_view(l: Seq<Commodity>) -> Seq<CommodityView> {
    l.map_values(|c: Commodity| commodity_view(c))
}

/// The errors of the registry.
#[derive(Clone, Copy, Debug, PartialEq, Eq, Structural)]
pub enum Error {
    /// An attempt to mint a duplicate commodity.
    CommodityExists,
    /// An attempt to burn, transfer, lock or unlock a nonexistent commodity.
    NonexistentCommodity,
    /// Someone who is not the owner of a commodity attempts to transfer or burn it.
    NotCommodityOwner,
    /// The maximum number of commodities already exists.
    TooManyCommodities,
    /// The receiving account already owns the maximum number of commodities.
    TooManyCommoditiesForAccount,
}

/// The error of a dispatched call: a bad origin, or an error of the registry.
#[derive(Clone, Copy, Debug, PartialEq, Eq, Structural)]
pub enum DispatchError {
    /// The call was made from an origin that may not make it.
    BadOrigin,
    /// The registry refused the call.
    Module(Error),
}

/// Where a dispatched call comes from.
#[derive(Clone, Copy, Debug, PartialEq, Eq, Structural)]
pub enum Origin {
    /// The root (governance) origin.
    Root,
    /// A call signed by an account.
    Signed(AccountId),
    /// An unsigned call.
    Unsigned,
}

/// The origin that may mint new commodities.
#[derive(Clone, Copy, Debug, PartialEq, Eq, Structural)]
pub enum CommodityAdmin {
    /// Only the root origin.
    Root,
    /// Only calls signed by this account.
    Account(AccountId),
}

/// The events that the registry deposits.
#[derive(Clone, Copy, Debug, PartialEq, Eq)]
pub enum Event {
    /// A commodity was destroyed.
    Burned(CommodityId),
    /// A commodity was created for an account.
    Minted(CommodityId, AccountId),
    /// A commodity was given to a new owner.
    Transferred(CommodityId, AccountId),
}

/// The configuration of the registry.
#[derive(Clone, Copy, Debug, PartialEq, Eq, Structural)]
pub struct Config {
    /// The origin that is able to mint new commodities.
    pub commodity_admin: CommodityAdmin,
    /// The maximum number of commodities that may exist (minted - burned).
    pub commodity_limit: u128,
    /// The maximum number of commodities that any single account may own.
    pub user_commodity_limit: u64,
}

} // verus!
