# grainlify-core multisig

A threshold multi-signature scheme for contract upgrades, verified with Verus.

- `src/` is the verified library. `MultiSig` holds the signer configuration,
  the proposals (proposal `k` at index `k - 1`), the execution nonce and the
  events reported so far. Every operation is proved to act exactly as its
  counterpart in `src/model.rs` says, to leave the state untouched when it is
  refused, and to keep the well-formedness invariant `MultiSigView::wf`.
  `src/laws.rs` proves the properties that span operations: replay
  protection by the nonce, the finality of executed proposals, the signer and
  threshold snapshot of each proposal, and the threshold guards.
- `app/` is the Soroban glue: it loads the state from the contract's instance
  storage, checks authorization, calls the library, stores the result and
  publishes the reported events.
- `tests/` exercises the library on concrete scenarios.
