# order-api

An HTTP service that stores items and orders in Postgres, creates each order
at most once per `Idempotency-Key`, and limits every client to a number of
requests per sliding time window (answering `429 Too Many Requests` beyond it).

- `src/` is the verified library: the rate limiter, the admission decision,
  the order-creation protocol (a state machine whose actions the caller
  performs against the database), request fingerprints and the response
  bodies, each with its contract, and the properties that span several calls.
- `tests/` exercises the library.
- `app/` is the server: configuration, the database, routing, and the loop that
  runs the order protocol's actions.
