# dico_pallets

The logic of the DICO chain pallets, written in Verus and proved against its
contracts.

- `kyc`: the KYC pallet. Users register their identity on a deposit, apply for
  the review of a field, and pay an identity authentication service (IAS) and a
  sword holder, drawn at random among those whose fee fits the offer, to review
  and confirm it. `kyc::types` holds its data, `kyc::pallet` the calls with their
  outcomes as spec functions over the storage, and `kyc::laws` the properties
  that span calls.
- `pricedao`: the price DAO pallet. Feeders pledge a deposit to join the oracle,
  are slashed to the treasury by the council, and leave after an expiration
  period; prices come from the oracle or from the swap pools.
- `oracle`: the default combiner of reported values, the median of those that
  have not expired.
- `farm_weights`, `lbp_weights`, `weights`: the benchmarked weights of the farm
  and LBP calls, with saturating arithmetic.
- `currency`: the reservable currency the pallets hold deposits in, as a trait
  whose operations are spec functions over the balances, and `Ledger`, balances
  kept in memory.
- `randomness`: random numbers drawn from the runtime's randomness source, with
  the subject and the output in the SCALE encoding (`parity-scale-codec`).
- `system`: origins and the event log.

The runtime around the pallets (storage, dispatch, the oracle and swap pallets)
is not part of the crate: the pallets are structs holding their storage, calls
are methods that take the origin and the currency, and what the price DAO asks of
the oracle pallet is returned as an `OracleRequest`.
