# trendlab_core

The verified core of a bar-by-bar trend-following backtesting engine.

- `src/` — the library, verified with Verus: identifiers and BLAKE3 digests
  with their hex form, the order book state machine (OCO groups, brackets,
  atomic cancel/replace, audit trail) and its laws, trigger rules, intrabar
  path policies, the start-of-bar / intrabar / end-of-bar execution phases,
  position-manager intents and the stop ratchet, the per-bar decisions of
  the backtest loop (which symbols are skipped, evaluated or managed, which
  entries the trading mode admits, how a held position's stop is moved),
  the pairing of entry and exit fills into round trips, rejection guards, the
  fill-simulation policies (sequencing, gap detection, FIFO volume
  allocation), warmup tracking and indicator descriptors with their window
  extremes. Prices are carried as integer levels that order as the market
  prices do; quantities are whole units.
- `tests/` — scenario tests of the library.
- `app/` — the floating-point side around it: bars and instruments, cost
  model, portfolio and trade records, indicator series, guards on prices and
  cash, run fingerprints and their serialised forms, and the backtest run
  itself, which drives the library's per-bar decisions.
