# rbuilder

Preconfirmation orders for a block builder, verified with Verus.

- `src/preconf` – the preconfirmation server's markets and bundles: deadlines that are known and
  asked for, orders made of bundles, errors and their texts.
- `src/live_builder` – the decisions of the jobs that fetch orders, hand them to the order pool
  and start the builders.
- `src/building` – the record of a built block and the check that it keeps the promises made to
  its orders.
- `src/logger.rs`, `src/log_filter.rs` – what log a configuration asks for, and which filter
  directives their parser can be given.
- `src/clock.rs`, `src/uint.rs`, `src/text.rs`, `src/primitives.rs` – the values that the rest is
  made of.
- `app` – the program around the library: arguments, network, JSON, decoding, tasks.
- `tests` – scenarios on concrete values.

What other crates compute (UUIDs, URLs, dates, 256-bit integers, hash tables, status texts, log
filters) is called through small functions whose contracts say what is relied on.
