# Remora

Remora is a distributed executor for transactions on objects. A primary takes
transactions from clients in an agreed order and spreads them over proxies. The
proxies check and execute them, exchange the states that they need, and report
what they changed epoch by epoch, so that a proxy can be replaced, added or
retired while the others go on.

The decisions of all of these are a library that Verus verifies:

- `base_types`, `duration`, `error`, `config`, `text`: objects, identities,
  spans of time, settings and messages.
- `tables`, `ordered_map`, `random`: collections and chance.
- `networking`: how messages are framed on a stream.
- `checkpoint`: epochs on proxies, and how the primary merges what they report.
- `executor`: executors for synthetic and TPC-C transactions, their stores and
  generators, calibration, worker pools, and who waits for which check.
- `primary`: which proxy gets which transaction and states, scaling and
  retirement of proxies, recovery and replay.
- `proxy`: what a proxy does with each message, which states it has, the course
  of a transaction, and scheduling without a primary.
- `client`: how transactions are spread over clients and over time.
- `recovery`: the log of transactions that are not persisted.

Public proof functions whose names begin with `law_` state what holds of several
functions together. Calls into other crates stand in small functions marked
`external_body`, each with a comment that says what is relied on.

`app/` is the program around the library: sockets, files, clocks, threads and
what is computed in floating point. `tests/` runs the library.
