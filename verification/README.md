# nft_merge

The logic of two Solana programs that merge NFTs: a burner that checks and burns
four tokens of the collection, and a candy machine that mints a new token only in a
transaction that also calls the burner.

- `src/` is the verified library (Verus): the candy machine account's byte layout
  (`layout`), the bitmask search that picks the config line to mint (`bitmask`),
  adding and reading config lines (`config_lines`), the machine's instructions
  without their cross-program calls (`candy`), the check of a mint transaction's
  instructions (`instructions`), what every instruction keeps of the account, so
  that no config line is minted twice (`invariants`), gateway tokens (`gateway`),
  the burner's checks (`burner`), known addresses
  (`keys`), errors (`error`), plain state types (`state`), and the calls into the
  standard library and the Solana crates with their trusted contracts (`trusted`).
- `app/` holds the Anchor program around the library: accounts, serialization,
  calls into the token and token metadata programs, and logs.
- `tests/` runs the library on concrete accounts, token accounts, metadata and
  instruction lists.
