# apron_services

A service market and the usage statistics of its services, verified with Verus.

- `src/market.rs`: services numbered in the order first added, found by number,
  by uuid (re-adding a uuid rewrites its service in place) and by provider,
  whole or a page at a time.
- `src/statistics.rs`: usage records, submitted by the service's provider and
  numbered in the order submitted, found by
  number, by service uuid, by user key and by the service's provider.
- `src/page.rs`: what a page of a list holds, and the laws of paging.
- `src/storage.rs`: the uuid and id-list indexes, held in `ink_storage`'s
  storage hash map behind trusted wrappers.
- `src/account.rs`: 32-byte account addresses.
- `app/`: the contract shell: callers from the ink! environment, the
  preconditions the library asks for checked as panics, and events kept
  SCALE-encoded.

## Design notes

- The indexes keep `ink_storage::collections::HashMap` in a private field of a
  struct marked `#[verifier::external_body]`. Declaring the map itself to Verus
  was refused: the map's bounds name `ink_storage`'s and `ink_env`'s own traits
  (`PackedLayout`, `CryptoHash`, `HashOutput`), which Verus's trait-conflict
  checker cannot resolve.
- Services by number and records by number are held in a `Vec`. The storage
  map only takes values that implement `ink_storage`'s layout traits and the
  SCALE codec, which only derives of those crates give, and those derives
  cannot stand on the library's types. Numbers run from 0 and none is ever
  removed, so a `Vec` indexed by number holds the same.
- `ink_primitives` is pinned to the same release as `ink_env` and
  `ink_storage`: without it, cargo resolves `ink_metadata` to a later release
  that does not build beside `ink_storage` 3.0.0-rc6.
- A market records the account it is deployed at; statistics record the
  market's account, and a submission must be given that market.
