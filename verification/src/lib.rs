//! Unique assets ("commodities"): a registry of non-fungible tokens whose
//! identifiers are the runtime hash of the info that defines them.
//!
//! An admin mints commodities for accounts; owners burn them or transfer
//! them; commodities can be locked, unlocked and transferred by force.
//! Configured limits bound the number of commodities that exist and the
//! number that any one account owns.

mod hashing;
mod keyed_map;
mod tally;

pub mod genesis;
pub mod laws;
pub mod list;
pub mod model;
pub mod nft;
pub mod order;
pub mod pallet;
pub mod types;

pub use genesis::GenesisConfig;
pub use hashing::commodity_hash;
pub use nft::{LockableUniqueAssets, UniqueAssets};
pub use pallet::Pallet;
pub use types::{
    AccountId, Commodity, CommodityAdmin, CommodityId, CommodityInfo, Config, DispatchError, Error,
    Event, Origin,
};
