# quorum

A verified model of the Quorum governance token (QUORUM) and of the governor
that weighs votes by token balances at a snapshot ledger.

- `src/checkpoints.rs`: per-account balance history, the collapse of several
  changes in one ledger into one entry, and the binary search for the balance
  in effect at a past ledger.
- `src/token.rs`: the token contract (initialize, transfer, transfer_from,
  mint, burn, approve with expiring allowances, admin handover) over a
  mathematical model of its storage; the recorded supply is proved to equal
  the sum of all balances after every operation.
- `src/governance.rs`: the governor (proposals, snapshot-weighted votes,
  quorum, timelock, cancellation).
- `src/env.rs`: the ledger environment the contracts run in: ledger sequence,
  authorizations, address numbering, both contracts' storage, the event log.
- `src/deployment.rs`: standing up a token and a governor and driving a
  proposal through its lifecycle.
- `app/`: Soroban contracts that load host storage into the model, run the
  verified operations and write the result back.

## Rules the model fixes

- Cancellation: the proposer or the governor's admin can cancel a proposal
  any time before it is executed, before or after voting (Pending, Active,
  Failed or Queued). An executed or already cancelled proposal is refused
  with `VotingNotActive`; a caller who is neither proposer nor admin is
  refused with `Unauthorized`.
- Authorization: a call made without the authorization it needs is refused
  with `Unauthorized` and changes nothing; on the ledger the host aborts such
  an invocation.
- Events: the token publishes transfer, mint, burn, approve and admin
  handover events; the governor publishes `proposal_created` (id, proposer,
  snapshot, end ledger, quorum), `vote_cast` (id, voter, choice, weight) and
  `proposal_finalized` (id, outcome). Refused calls publish nothing.
- The governor reads balances and supply from the token contract hosted in
  the same environment; the configured token address must name it.
- The ledger may be moved to any sequence. Past balances are read by binary
  search over each account's checkpoints; while the ledger only moves
  forward, that search returns the balance in effect at the queried ledger.
