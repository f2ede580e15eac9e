# settlement_contracts

The verified core of three Soroban contracts used for settlement:

- `escrow` — deposits held for a bridge (`depositor:bridge:ledger` ids),
  released once by the settlement authority or refunded once to the depositor
  from their timeout ledger, never both, behind an administrator-controlled
  pause switch that stops new deposits;
- `multisig` — an M-of-N signing authority: proposals collect signatures
  from registered signers and are executed once the threshold that their
  value requires is met (one signature up to a positive high-value limit,
  the full threshold above it);
- `treasury` — tiered protocol fees (0.5% / 0.25% / 0.1%) and the treasury
  address that fees are routed to.

Each contract is a plain state value (`src/`) whose operations are specified
against a mathematical model and proved; refused calls leave the
state unchanged, and accepted calls return the event to publish.  `src/keyed.rs`
holds the lemmas about lists of keyed entries that the proposal list and the
fee schedule rest on.

The ledger's own collections (vectors and maps of addresses, strings and
proposals) are host objects that exist only inside a contract invocation, so
the core holds them as plain vectors, each stated to list every key once and
read as the map it stands for.

`app/` holds the Soroban contracts themselves: they load instance storage into
the core's state, require the authorisations each call needs, run the verified
operation, store what changed and publish the event.
