# stellar-swipe

The rules of two Soroban contracts, written and proved in Verus.

- **Fee collector**: charges 10 basis points on each trade, at least one stroop, unless the payer is
  exempt, and keeps a total per token.
- **User portfolio**: opens and closes positions, sums up profit and loss, pages through closed
  trades, and awards badges.

## Layout

- `src/` is the verified library. A contract call is a function on an `Invocation`: it works on the
  storage entries that it is given and records, in order, what the host has to do (authorizations,
  transfers, events).
  - `address.rs`, `host.rs`, `table.rs`: addresses, calls and storage tables.
  - `id_list.rs`: the lists of position ids, kept in host vectors. The trusted items are here.
  - `fee_collector.rs`, `fee_laws.rs`: the fee collector and what holds of it.
  - `user_portfolio.rs`, `badges.rs`, `queries.rs`: the user portfolio, its badges and its answers.
  - `portfolio_laws.rs`, `query_laws.rs`, `portfolio_history.rs`: what holds of the user portfolio,
    of single calls and of any calls.
- `app/` is the contracts as the network runs them: they read entries, call the library, do what it
  asks of the host, and write the entries back.
- `tests/` runs the library on concrete values.
