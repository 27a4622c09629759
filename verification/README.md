# pallet_commodities

A registry of unique assets ("commodities"), verified with Verus. Each
commodity is identified by the BLAKE2b-256 hash of the SCALE encoding of its
info (computed by `sp-runtime`). An admin origin mints commodities for
accounts; owners burn or transfer them; commodities can be locked, unlocked
and transferred by force. A total limit and a per-account limit bound how
many exist and how many one account owns.

Layout of `src/`:

- `types.rs` – accounts, identifiers, errors, origins, events, configuration.
- `order.rs`, `list.rs` – the lexicographic order of bytes and commodities, and
  the sorted commodity lists (binary search, sorted insertion, removal by
  identifier).
- `keyed_map.rs`, `tally.rs` – the storage maps and the sums and counts over them.
- `model.rs` – the storage as mathematical values, what each operation does to
  it, and the invariants each operation keeps.
- `pallet.rs` – the registry itself: storage getters, the asset operations and
  the dispatched calls (origin checks and events).
- `nft.rs` – the `UniqueAssets` and `LockableUniqueAssets` interfaces.
- `genesis.rs` – the initial commodities.
- `laws.rs` – properties that span operations.
- `hashing.rs` – the call into `sp-runtime` that computes identifiers.

`app/` holds the genesis glue that aborts on a refused mint.
