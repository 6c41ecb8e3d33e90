# shrinker

A telemetry agent that shrinks logs: it groups consecutive repeats of a
message (`[x6] message`), masks IPv4 and IPv6 addresses, reads the message of
JSON records (`message`/`msg` and `level`), drops lines by exclusion and
inclusion patterns, and posts webhook alerts for messages repeated often, at
most one per cooldown period for the same message.

Layout:

- `src/` is the verified library.
  - `text.rs`: trimming, substring search, decimal numbers, case mapping.
  - `pattern.rs`, `json.rs`: the calls into `regex` and `serde_json`.
  - `message.rs`: message extraction, IP masking, pattern sets.
  - `config.rs`: settings, command-line overrides, webhook variables.
  - `dedup.rs`: runs of repeated messages and their laws.
  - `alert.rs`: alert decisions and the cooldown, with its laws.
  - `output.rs`: text and JSON lines, alert payload, saving in percent.
  - `processor.rs`: the processor that takes in lines one by one.
- `app/main.rs` is the command: argument parsing, files, standard streams,
  clock, `curl`, colours.
- `tests/` exercises the library.
