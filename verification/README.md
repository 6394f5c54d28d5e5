# blockchain_intelligence

A real-time blockchain transaction platform: an ingestion service stores and
publishes normalized transactions, and an API service serves them over HTTP and
websockets together with live analytics.

Layout:

- `src/` is the verified library.
  - `text`: decimal text of integers, zero padding, decimal parsing.
  - `transaction`: the normalized transaction record and its summary line.
  - `analytics`: running totals, whale count, largest transaction and the
    sixty-second rolling window, with the laws they keep.
  - `generator`, `simulation`: numbered synthetic transactions.
  - `api`, `ingest`: the decisions of the two services.
  - `pubsub`: the Redis client of the transaction event channel.
  - `metrics`: the counters, gauges and timers the services emit.
- `app/` holds the services themselves (HTTP, websockets, PostgreSQL, Redis,
  task plumbing). Run it with `simulate`, `api` or `ingest` as argument.
- `tests/` exercises the library on concrete values.

Amounts are integers: a transaction carries its value as decimal text in wei,
and the analytics reads that text as an unsigned 128-bit number.
