# pallets

Three Substrate-style pallets as a verified library:

- `hellokitty`: kitties with random DNA, kept in per-account doubly linked
  lists (`linked_item`), bred from two parents, transferred, listed for sale
  and bought. The runtime (randomness and a reservable currency) is the
  `Trait` a caller implements; it models the currency as the free and
  reserved balance of each account, and every call states what it does to
  them. `runtime` holds an in-memory runtime that meets that contract (the
  tests run on it). What follows each of the runtime's answers is a function
  of its own that takes the answer: `create_with_seed` and `breed_with_seed`
  for a drawn seed, the `settle_*` functions for the outcome of a reservation
  or a transfer.
- `mirrorerc20`: a ledger of fungible tokens whose balances always sum to each
  token's total supply.
- `ocw_currency_price`: bounded lists of token names and token information,
  the text of token information and of a price request, and the decisions
  of the offchain worker that fetches prices.

`dispatch` holds call origins and dispatch errors; `hashing` the SCALE
encoding and Blake2 digest of the randomness payload, computed by
parity-scale-codec and sp-io.

`app/` holds what runs outside the library: the JSON form of token
information, the HTTP request, and the offchain cache and its lock
(sp-runtime's `StorageLock` with a block and time deadline).
