# tvm_devirt diagnostics

A verified library for the diagnostics that explain why a function's control-flow
recovery did not close, and for the JSON report that lays them out beside the
recovered graph.

- `src/diag.rs`: the diagnostic records, and the collector that recovery feeds
  (`begin`, `set_pass`, `record_*`, `measure`, `take`), with its laws.
- `src/ir.rs`: the recovered graph, its validation result and the image layout,
  as far as the report reads them.
- `src/text.rs`: decimal and hexadecimal numbers, JSON string escaping (with its
  round-trip law) and comma lists.
- `src/report.rs`: the report: every JSON value it writes is stated exactly as a
  sequence of characters; laws on which records describe a block, on merged
  counts and on non-executable targets.
- `app/`: per-thread collection hooks and the command that writes the report.
