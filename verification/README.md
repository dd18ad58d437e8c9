# crossborder

Contracts for cross-border payments on Stellar/Soroban: a time-locked
escrow with disputes, an exchange-rate oracle that aggregates weighted
submissions and searches conversion paths, and a compliance engine that
screens transfers against KYC/AML records, restricted jurisdictions and
configurable rules.

The decisions of all three contracts are written in Verus and verified.

## Layout

- `src/` — the verified library.
  - `escrow.rs`, `rate_oracle.rs`, `compliance.rs`: each contract as a state
    machine over plain values.  A spec model (`EscrowContractModel`,
    `RateOracleModel`, `ComplianceContractModel`) says what every operation
    returns and how it changes the state, and every executable operation is
    proved to follow it exactly, errors included.
  - `escrow_laws.rs`, `rate_oracle_laws.rs`, `compliance_laws.rs`: properties
    that span operations, proved over the models (for example: a settled
    escrow is never paid out again; an approved transfer passed every gate; an
    aggregated rate lies between the submitted rates).
  - `table.rs`: an ordered table (sorted list of entries) with a type
    invariant; `bytes.rs`: byte-string comparison and copies;
    `numeric.rs`: big-endian integer decoding and wrapping casts;
    `digest.rs`: record ids as SHA-256 digests computed by the Soroban host.
- `tests/` — tests of the library on concrete values.
- `app/` — the Soroban contracts themselves: they load the library's state
  from persistent storage, call the library, perform the authorizations and
  token transfers it returns, and save the new state.

Operations that move tokens do not move them: they return the transfer to
perform and the account whose authorization it needs, and the host carries
it out.  Ledger time is passed in as `now`.
