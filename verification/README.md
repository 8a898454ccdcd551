# liquidium_test_backend

A rune-collateralised bitcoin lending canister for the Internet Computer. Lenders lock
bitcoin in liquidity bundles and publish loan offers; borrowers lock runes as collateral
and take loans against them; loans that are not paid back by their expiry default and the
collateral goes to the lender.

The library under `src/` is verified with Verus:

- `redblack.rs` — a left-leaning red-black tree of items ordered by an integer key, with
  insertion, lookup, in-order listing and removal of every item up to a bound. Items
  with equal keys are all kept, so loans that expire at the same moment are all
  liquidated. Its contracts speak of the sorted sequence of items; insertion keeps the
  tree balanced.
- `expiry.rs` — expiry records, ordered by their expiry time.
- `canister.rs` — the canister's records (offers, bundles, collaterals, loans and their
  owners) and the decisions of its endpoints: which requests are granted, what a loan,
  a repayment or a default changes, which loans have expired, and how a borrower's
  unspent outputs are scanned for runes.
- `rune_trx.rs` — planning and assembling an unsigned rune transfer and its fee.
- `utils.rs` — checking that a transaction is confirmed and carries the expected runes,
  and reading a bitcoin node's HTTP JSON-RPC replies.
- `types.rs`, `decimal.rs`, `codec.rs`, `btc.rs` — the records, rune ids and their text,
  decimal numbers, hex and SHA-256, and the calls into the `bitcoin`, `ordinals`, `hex`
  and `sha2` crates, each behind a small trusted wrapper whose contract says what the
  crate does.

`app/` holds the canister itself: the endpoints, the management-canister calls (ECDSA,
bitcoin, HTTPS outcalls, randomness, time), Candid and serde types, and signing.
`tests/` exercises the library.
