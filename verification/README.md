# log-normalizer

A TCP service that normalizes RFC 3164 syslog (wrapping CEF) and NDJSON (Windows
Event Log) event streams into a common, flat JSON schema. The logic is a library
verified with Verus; the service around it is ordinary Rust.

- `src/` is the verified library. Contracts are stated over `Seq<char>` and models
  of each type; what holds of the library as a whole stands as public proof
  functions at the end of each module.
- `app/` is the service: sockets, files, signals, command line and logging. It
  performs the actions that `pipeline::Connection` and `sink::Consumer` decide on.
- `tests/` runs the library on concrete values, with the real `serde_json` and
  `chrono`.

## Guarantees

- The first line with a known format (`<` for syslog, `{` for NDJSON) locks the
  format of its connection.
- Every line that is not blank becomes one record or is reported as dropped, in
  order, however the lines are cut into batches.
- Undetectable or malformed lines do not end a connection. A line over the length
  limit ends it after what came before is sent. A shutdown ends it between batches.
- A record holds the required fields and the optional ones that are available, each
  once, in a fixed order, as one JSON object on one line, which reads back as those
  fields.
- A timestamp is the one of an actual instant, in ISO 8601 UTC with milliseconds. A
  well-formed one in a line is kept: in the current year for syslog, brought to UTC for
  Windows events.
- The sink writes every record it takes, once and in order, and waits only when all
  is flushed. What it writes between two flushes is bounded. After a failed write or
  flush it takes no more.
- `-`, empty values and the null SID `S-1-0-0` mean "not applicable" and are omitted
  from optional fields.

## What is trusted

`chrono` (reading and writing instants, the clock), `serde_json` (parsing documents,
looking into them, writing strings), and from the standard library `String::push` and
`str::to_lowercase`. Each stands behind one item in `src/clock.rs`, `src/json.rs` or
`src/text.rs` whose comment says what is claimed of it.
