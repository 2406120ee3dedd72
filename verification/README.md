# strata_core

The decision-making core of the Strata SQL workbench engine, written in Verus: every
function in `src/` carries a contract that the verifier proves, and the laws the engine
promises across calls stand as proof functions beside the code they speak of.

- `src/` — the verified library: engine config keys and overrides, the run/scan/snapshot
  lifecycle, plan rendering, reading JSON records and inferring their schema, external-table options and registration
  messages, table and copy statements, export statements, chart shaping, profiling, the
  listing of live database connections, and the text and number grammars they share.
- `tests/` — tests of the library on concrete values.
- `app/` — the host around it: the file system, the clock, the loops that drive the
  library's statement step functions, conversions from `sqlparser` values into the
  library's own, and the floating-point half of charting.

Verify with `verus`; the outside crates it calls (`datafusion-common`, `sqlparser`, `serde_json`) are
reached through a few trusted wrappers, each documented at its definition.
