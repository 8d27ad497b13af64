# huayuan

The rules of a small estate-management game and of its operator back office,
written in Verus and proved against their contracts.

## Layout

- `src/` — the verified library.
  - `models.rs`, `catalog.rs` — the shared records and the item/chore catalogue.
  - `garden.rs`, `garden_fits.rs`, `garden_laws.rs` — the estate's actions as a
    state machine (`apply_action` against the spec `step`), the executable test
    of its range condition, and properties that hold across actions.
  - `listing.rs` — what the estate screens list: open contracts first,
    stocked and sellable items, the storeroom's total.
  - `game_2048.rs`, `match3.rs`, `make10.rs`, `dice.rs` — the three mini-games;
    randomness comes in as a queue of 32-bit draws supplied by the host.
  - `backend.rs`, `backend_ops.rs`, `backend_admin.rs`, `backend_laws.rs` — the
    back office: keyed tables, audit log, sessions, advert rewards, mini-game
    settlements, administrator operations and their cross-operation laws.
    Time-dependent operations come in two forms: `*_at` takes the clock reading
    as an argument and has an exact contract; the plain form reads the clock.
  - `clock.rs`, `digest.rs` — the wall clock and SHA-256 (through the `sha2`
    crate) behind small trusted wrappers, with day keys, hex rendering,
    password hashes and session tokens built on them in verified code.
  - `order.rs`, `text.rs` — byte-wise string order with a verified sort of
    keys, decimal rendering, string equality and white-space tests.
- `tests/` — tests on concrete values.
- `app/` — the programs around the library: the Axum server and the Leptos
  browser client, with serde copies of the library's records.
