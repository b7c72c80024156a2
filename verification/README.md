# query_graph_builder

A verified library for planning database queries: it reads the parsed input of a
query (filters, write arguments, orderings, cursors, nested writes) against a data
model and builds the query graph that a query engine executes, with Verus proofs
of what each step produces and of when it refuses its input.

## Layout

- `src/` — the library, verified with Verus.
  - `values`, `schema`, `document`: the input values, the data model and parsed fields.
  - `filter`, `extract`, `scalar`, `scalar_parser`, `suffix_filter`, `unique`: filter
    extraction; `filter_fold`, `flatten`, `equality`: filter normalisation.
  - `write_args`, `copies`: write arguments.
  - `query_args`: orderings, cursor, `take`/`skip`, `distinct` and the implicit ordering.
  - `selection`, `selection_spec`: what a read selects, and how it loads relations.
  - `query_graph`, `write_utils`: the graph and the shared graph builders.
  - `connect_nested`, `disconnect_nested`, `set_nested`, `delete_nested`,
    `connect_or_create`, `upsert_nested`: nested writes.
  - `delete` (of one record and of many), `upsert` and `update`: the top-level writes and
    the record update they share.
  - `referential`, `emulation`, `relations`: the emulation of referential actions where
    the database does not enforce them.
  - `aggregation_response`: the response object of each row of aggregated values.
  - `group_by`, `limit`, `relation_load_strategy`, `error`, `text`,
    `shown`: the rest (`shown` writes the text of a value that error messages quote).
- `tests/` — tests of the library on concrete inputs.
- `app/` — serialisable copies of the library's error contexts and the environment
  settings, outside the verified part.
