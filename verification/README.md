# rushort

A URL shortener and its load generator, with their logic proved in Verus.

- `src/` is the library. Codes (`base62`), accepted URLs (`links`) and the
  sharded store (`store`) make up the shortener; `head`, `response`, `route`
  and `conn` are its HTTP/1.1 side, from bytes to bytes, and `stream` says what
  a connection comes to in all. `settings`, `rng`,
  `schedule`, `workload`, `seeding`, `client`, `stats` and `verification` make
  up the load generator. `boundary` holds all that is believed of other crates.
- `app/` holds the sockets, the clock, the database and the numbers with
  fractions: `rushort [--bind ADDR] [--shards N] [--preload N]` serves, and
  `rushort loadgen` puts load on a server.
- `tests/` runs the library.

## What is proved

A connection is a state machine: bytes go in with `feed`, `advance` answers the
requests that are whole, in their order and at most 256 at a time, and says what
is needed next. The proofs say what every request is answered, that neither the
batches nor the pieces in which bytes arrive change what is sent, that a stored URL
is what its code leads to, that no two URLs share a code, that nothing is stored
without the token where one is set, that no refused head is followed by another
answer, and that every answer is counted.

The load generator schedules every request exactly once, gives every
attempted request exactly one outcome, and passes a run only if each had the
expected one.

A stored URL whose code is `ready` or `health` is hidden by the page of that
name; they are numbers 792819790 and 39993529145.
