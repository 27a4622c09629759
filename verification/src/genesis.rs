//! The initial commodities of a registry.
use vstd::prelude::*;

use crate::hashing::commodity_hash;
use crate::model::{mint_error, mint_step, value_or_zero, Storage};
use crate::nft::UniqueAssets;
use crate::pallet::Pallet;
use crate::types::{AccountId, CommodityInfo, Config, Error};

verus! {

/// The commodities that each account owns at genesis.
pub struct GenesisConfig {
    pub balances: Vec<(AccountId, Vec<CommodityInfo>)>,
}

/// The balances of a genesis configuration, as mathematical values.
pub open spec fn balances_view(b: Seq<(AccountId, Vec<CommodityInfo>)>) -> Seq<
    (AccountId, Seq<Seq<u8>>),
> {
    b.map_values(
        |e: (AccountId, Vec<CommodityInfo>)| (e.0, e.1@.map_values(|v: CommodityInfo| v@)),
    )
}

/// The commodities of one account at genesis, each with its owner.
pub open spec fn owned_items(e: (AccountId, Seq<Seq<u8>>)) -> Seq<(AccountId, Seq<u8>)> {
    e.1.map_values(|info: Seq<u8>| (e.0, info))
}

/// All commodities to mint at genesis, in order, each with its owner.
pub open spec fn genesis_items(b: Seq<(AccountId, Seq<Seq<u8>>)>) -> Seq<(AccountId, Seq<u8>)>
    decreases b.len(),
{
    if b.len() == 0 {
        Seq::empty()
    } else {
        genesis_items(b.drop_last()) + owned_items(b.last())
    }
}

/// Minting the commodities in order, stopping at the first refusal.
pub open spec fn mint_all(s: Storage, config: Config, items: Seq<(AccountId, Seq<u8>)>) -> (
    Storage,
    Result<(), Error>,
)
    decreases items.len(),
{
    if items.len() == 0 {
        (s, Ok(()))
    } else {
        let prev = mint_all(s, config, items.drop_last());
        if prev.1 is Err {
            prev
        } else {
            mint_step(
                prev.0,
                config,
                items.last().0,
                commodity_hash(items.last().1),
                items.last().1,
            )
        }
    }
}

/// The items of the first accounts come first.
pub proof fn lemma_genesis_items_prefix(b: Seq<(AccountId, Seq<Seq<u8>>)>, k: int)
    requires
        0 <= k <= b.len(),
    ensures
        genesis_items(b.take(k)).len() <= genesis_items(b).len(),
        genesis_items(b).take(genesis_items(b.take(k)).len() as int) == genesis_items(b.take(k)),
    decreases b.len(),
{
    if k == b.len() {
        assert(b.take(k) =~= b);
        assert(genesis_items(b).take(genesis_items(b).len() as int) =~= genesis_items(b));
    } else {
        let d = b.drop_last();
        assert(b.take(k) =~= d.take(k));
        lemma_genesis_items_prefix(d, k);
        let p = genesis_items(d.take(k));
        assert(genesis_items(b).take(p.len() as int) =~= genesis_items(d).take(p.len() as int));
    }
}

/// Once a refusal has come, minting more changes nothing.
pub proof fn lemma_mint_all_stops(
    s: Storage,
    config: Config,
    xs: Seq<(AccountId, Seq<u8>)>,
    ys: Seq<(AccountId, Seq<u8>)>,
)
    requires
        mint_all(s, config, xs).1 is Err,
        xs.len() <= ys.len(),
        ys.take(xs.len() as int) == xs,
    ensures
        mint_all(s, config, ys) == mint_all(s, config, xs),
    decreases ys.len(),
{
    if ys.len() == xs.len() {
        assert(ys =~= xs);
    } else {
        assert(ys.drop_last().take(xs.len() as int) =~= xs);
        lemma_mint_all_stops(s, config, xs, ys.drop_last());
    }
}

/// Minting one item more: when the items before it were all minted, the new
/// item is minted under the identifier of its info, whatever that info holds
/// (an empty info too); after a refusal nothing more happens.
pub proof fn law_mint_all_push(
    s: Storage,
    config: Config,
    items: Seq<(AccountId, Seq<u8>)>,
    x: (AccountId, Seq<u8>),
)
    ensures
        mint_all(s, config, items.push(x)) == if mint_all(s, config, items).1 is Ok {
            mint_step(mint_all(s, config, items).0, config, x.0, commodity_hash(x.1), x.1)
        } else {
            mint_all(s, config, items)
        },
{
    assert(items.push(x).drop_last() =~= items);
}

/// When every item was minted, each is owned by its account under the
/// identifier of its info, and the total grew by the number of items.
pub proof fn law_mint_all_owns_every_item(
    s: Storage,
    config: Config,
    items: Seq<(AccountId, Seq<u8>)>,
)
    requires
        mint_all(s, config, items).1 is Ok,
    ensures
        value_or_zero(mint_all(s, config, items).0.total) == value_or_zero(s.total) + items.len(),
        forall|k: int|
            0 <= k < items.len() ==> {
                let t = mint_all(s, config, items).0;
                &&& t.account_for_commodity.contains_key(commodity_hash(#[trigger] items[k].1))
                &&& t.account_for_commodity[commodity_hash(items[k].1)] == items[k].0
            },
    decreases items.len(),
{
    if items.len() > 0 {
        let d = items.drop_last();
        law_mint_all_owns_every_item(s, config, d);
        let prev = mint_all(s, config, d);
        let x = items.last();
        let id = commodity_hash(x.1);
        let t = mint_all(s, config, items).0;
        assert(mint_error(prev.0, config, x.0, id) is None);
        assert forall|k: int| 0 <= k < items.len() implies {
            &&& t.account_for_commodity.contains_key(commodity_hash(#[trigger] items[k].1))
            &&& t.account_for_commodity[commodity_hash(items[k].1)] == items[k].0
        } by {
            if k < items.len() - 1 {
                assert(items[k] == d[k]);
                assert(prev.0.account_for_commodity.contains_key(commodity_hash(d[k].1)));
            }
        }
    }
}

/// Every commodity of every account in a genesis configuration is among the
/// items that genesis mints, with that account as its owner.
pub proof fn law_genesis_items_cover(b: Seq<(AccountId, Seq<Seq<u8>>)>, i: int, j: int)
    requires
        0 <= i < b.len(),
        0 <= j < b[i].1.len(),
    ensures
        genesis_items(b).contains((b[i].0, b[i].1[j])),
    decreases b.len(),
{
    let d = b.drop_last();
    if i < b.len() - 1 {
        assert(b[i] == d[i]);
        law_genesis_items_cover(d, i, j);
        let k = choose|k: int| 0 <= k < genesis_items(d).len() && genesis_items(d)[k] == (
        b[i].0, b[i].1[j]);
        assert(genesis_items(b)[k] == genesis_items(d)[k]);
    } else {
        let k = genesis_items(d).len() + j;
        assert(genesis_items(b)[k] == owned_items(b.last())[j]);
    }
}

/// The items of a genesis configuration with one more account are those
/// before, then that account's commodities in order, each with that account.
pub proof fn law_genesis_items_push(
    b: Seq<(AccountId, Seq<Seq<u8>>)>,
    e: (AccountId, Seq<Seq<u8>>),
)
    ensures
        genesis_items(b.push(e)).len() == genesis_items(b).len() + e.1.len(),
        genesis_items(b.push(e)).take(genesis_items(b).len() as int) == genesis_items(b),
        forall|j: int|
            0 <= j < e.1.len() ==> #[trigger] genesis_items(b.push(e))[genesis_items(b).len() + j]
                == (e.0, e.1[j]),
{
    assert(b.push(e).drop_last() =~= b);
    assert(genesis_items(b.push(e)).take(genesis_items(b).len() as int) =~= genesis_items(b));
}

/// When genesis succeeds, every commodity of every account in the
/// configuration is owned by that account under the identifier of its info.
pub proof fn law_genesis_owns_every_commodity(
    s: Storage,
    config: Config,
    b: Seq<(AccountId, Seq<Seq<u8>>)>,
    i: int,
    j: int,
)
    requires
        mint_all(s, config, genesis_items(b)).1 is Ok,
        0 <= i < b.len(),
        0 <= j < b[i].1.len(),
    ensures
        mint_all(s, config, genesis_items(b)).0.account_for_commodity.contains_key(
            commodity_hash(b[i].1[j]),
        ),
        mint_all(s, config, genesis_items(b)).0.account_for_commodity[commodity_hash(b[i].1[j])]
            == b[i].0,
{
    law_genesis_items_cover(b, i, j);
    law_mint_all_owns_every_item(s, config, genesis_items(b));
    let k = choose|k: int| 0 <= k < genesis_items(b).len() && genesis_items(b)[k] == (
    b[i].0, b[i].1[j]);
    assert(genesis_items(b)[k].1 == b[i].1[j]);
}

impl GenesisConfig {
    /// Mints the commodities of each account in order. Where a mint is
    /// refused, the error is returned and nothing more is minted; the
    /// commodities minted before stay. Every info's length must fit in a
    /// `u32`, as its encoding for hashing requires.
    pub fn build(&self, pallet: &mut Pallet) -> (r: Result<(), Error>)
        requires
            old(pallet).wf(),
            forall|i: int, j: int|
                0 <= i < self.balances@.len() && 0 <= j < self.balances@[i].1@.len() ==> (
                #[trigger] self.balances@[i].1@[j])@.len() <= u32::MAX,
        ensures
            final(pallet).wf(),
            final(pallet).configuration() == old(pallet).configuration(),
            final(pallet).deposited() == old(pallet).deposited(),
            (final(pallet).storage(), r) == mint_all(
                old(pallet).storage(),
                old(pallet).configuration(),
                genesis_items(balances_view(self.balances@)),
            ),
    {
        let ghost s0 = pallet.storage();
        let ghost config = pallet.configuration();
        let ghost events = pallet.deposited();
        let ghost b = balances_view(self.balances@);
        let mut i: usize = 0;
        assert(b.take(0) =~= Seq::<(AccountId, Seq<Seq<u8>>)>::empty());
        while i < self.balances.len()
            invariant
                pallet.wf(),
                pallet.configuration() == config,
                pallet.deposited() == events,
                config == old(pallet).configuration(),
                events == old(pallet).deposited(),
                s0 == old(pallet).storage(),
                b == balances_view(self.balances@),
                i <= self.balances@.len(),
                forall|i2: int, j2: int|
                    0 <= i2 < self.balances@.len() && 0 <= j2 < self.balances@[i2].1@.len() ==> (
                    #[trigger] self.balances@[i2].1@[j2])@.len() <= u32::MAX,
                (pallet.storage(), Ok::<(), Error>(())) == mint_all(
                    s0,
                    config,
                    genesis_items(b.take(i as int)),
                ),
            decreases self.balances@.len() - i,
        {
            let who = self.balances[i].0;
            let assets = &self.balances[i].1;
            let ghost done = genesis_items(b.take(i as int));
            let ghost mine = owned_items(b[i as int]);
            assert(b[i as int].0 == who);
            assert(mine.len() == assets@.len());
            assert(b.take(i + 1).drop_last() =~= b.take(i as int));
            assert(genesis_items(b.take(i + 1)) == done + mine);
            proof {
                lemma_genesis_items_prefix(b, i + 1);
            }
            let mut j: usize = 0;
            assert(done + mine.take(0) =~= done);
            while j < assets.len()
                invariant
                    pallet.wf(),
                    pallet.configuration() == config,
                    pallet.deposited() == events,
                    config == old(pallet).configuration(),
                    events == old(pallet).deposited(),
                    s0 == old(pallet).storage(),
                    b == balances_view(self.balances@),
                    i < self.balances@.len(),
                    *assets == self.balances@[i as int].1,
                    forall|i2: int, j2: int|
                        0 <= i2 < self.balances@.len() && 0 <= j2 < self.balances@[i2].1@.len()
                            ==> (#[trigger] self.balances@[i2].1@[j2])@.len() <= u32::MAX,
                    mine == owned_items(b[i as int]),
                    b[i as int].0 == who,
                    b[i as int].1 == assets@.map_values(|v: CommodityInfo| v@),
                    mine.len() == assets@.len(),
                    done == genesis_items(b.take(i as int)),
                    genesis_items(b.take(i + 1)) == done + mine,
                    genesis_items(b).take(genesis_items(b.take(i + 1)).len() as int)
                        == genesis_items(b.take(i + 1)),
                    genesis_items(b.take(i + 1)).len() <= genesis_items(b).len(),
                    j <= assets@.len(),
                    (pallet.storage(), Ok::<(), Error>(())) == mint_all(
                        s0,
                        config,
                        done + mine.take(j as int),
                    ),
                decreases assets@.len() - j,
            {
                let info = assets[j].clone();
                assert(info@ =~= assets@[j as int]@);
                assert(self.balances@[i as int].1@[j as int]@.len() <= u32::MAX);
                assert(mine[j as int] == (who, info@));
                let ghost before = done + mine.take(j as int);
                let ghost after = done + mine.take(j + 1);
                assert(after.drop_last() =~= before);
                assert(after.last() == (who, info@));
                match UniqueAssets::mint_asset(pallet, &who, info) {
                    Ok(_) => {},
                    Err(e) => {
                        proof {
                            let all = genesis_items(b);
                            assert(all.take(after.len() as int) =~= after);
                            lemma_mint_all_stops(s0, config, after, all);
                            assert(b =~= balances_view(self.balances@));
                        }
                        return Err(e);
                    },
                }
                j = j + 1;
            }
            assert(mine.take(j as int) =~= mine);
            i = i + 1;
        }
        assert(b.take(i as int) =~= b);
        Ok(())
    }
}

impl Default for GenesisConfig {
    /// No commodities at genesis.
    fn default() -> (g: Self)
        ensures
            g.balances@.len() == 0,
    {
        GenesisConfig { balances: Vec::new() }
    }
}

} // verus!
