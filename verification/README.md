# relay

The core of a columnar data engine, specified and verified with Verus.

`src/` is the verified library:

- `types`, `schema`, `config`, `error` — column types, schemas with unique
  names and key/value metadata, engine configuration, error messages.
- `expr`, `arena`, `logical_plan`, `optimizer`, `plan`, `agg` — expression
  trees, arena-allocated logical plans, the rule-based optimizer (filter,
  projection and limit pushdown, expression simplification, empty-relation
  propagation) and query plans.
- `filter` — predicate masks over typed columns (nulls propagate), and the
  rows a mask keeps.
- `scan_agg` — integer column kernels: comparisons, parallel, streaming and
  fused filter+aggregate reductions, row-group pruning by statistics.
- `csv`, `csv_simd`, `json`, `text` — record and field boundaries (scalar
  and word-at-a-time), field splitting, cell values, type inference and
  widening, JSON format detection and record spans.
- `batch`, `ipc`, `madvise` — batch shape checks, IPC write checks and page
  advice.

`app/` is the host crate: Arrow arrays and record batches, the file readers
and writers, the system calls for page advice, floating-point aggregation and
the Python bindings. It hands the library plain values and acts on what comes
back.

`tests/` exercises the library through its public interface.
