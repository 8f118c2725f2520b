# defi_contracts

Three Soroban token contracts with their decision logic verified in Verus:

- `src/amm_pool.rs`: a constant-product liquidity pool (deposits, withdrawals,
  swaps with a 0.3% fee, integer square root for the first deposit), with
  proofs that, on a pool whose reserves are both positive, a swap of a
  non-negative amount never lowers `reserve_a * reserve_b` and never pays less
  for more; that withdrawals stay within the reserves and do not dilute the
  remaining shares; that depositing then withdrawing never profits; and
  that the share supply stays equal to the sum of all LP balances and the
  reserves to the tokens the contract holds.
- `src/escrow.rs`: an arbitrated escrow (create, release, cancel), with proofs
  of who may settle an escrow (release: the arbitrator, or the sender and the
  recipient together; cancel: the arbitrator, or the sender from the unlock
  time), that settled escrows are final, and that
  identifiers never repeat.
- `src/staking.rs`: a staking pool with time-based rewards and an early-exit
  penalty, with proofs on the penalty, that the total staked stays equal to
  the sum of all positions, and on rewards
  never growing by claiming more often.
- `src/account.rs`: addresses as their canonical byte encoding, compared and
  ordered byte by byte; `src/arith.rs`: integer facts the proofs share;
  `src/ledger.rs`: sums over maps of stored entries.

Every entry point takes the stored values it reads and returns the values to
write back and the transfers to make; rejected calls return an error whose
`message()` is the contract's abort text (for arithmetic overflow, the text
of the machine operation that overflows).

`app/` holds the contracts themselves: they read and write Soroban storage,
convert addresses, move tokens, check authorization and publish events around
calls into the library.
