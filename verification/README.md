# rpl_core

The matching core of RPL, a pattern language for finding code shapes in Rust
MIR, written in Verus. Every function under `src/` is verified by Verus, and
the public ones state what they return in `requires` / `ensures` contracts over
a mathematical model (`Seq`, `Map`, `int`); no function there is trusted.

## Layout

- `src/types.rs`, `src/reachability.rs`: place/location relations and the
  reachability closure of a control-flow graph.
- `src/normalized.rs`, `src/bindings.rs`, `src/adt_fields.rs`, `src/meta.rs`:
  meta-variable declarations, their bindings and how bindings merge.
- `src/candidates.rs`, `src/adt_match.rs`, `src/csp.rs`, `src/csp_laws.rs`:
  candidate tracking for ADT fields, structure matching, the search for a
  consistent assignment, and what every result of that search satisfies.
- `src/one_statement.rs`, `src/stmt_candidates.rs`: the one-statement matches and
  the statement and local candidates of a function pattern in a body, from what
  the statement matcher accepted.
- `src/matching.rs`, `src/locals.rs`, `src/signature.rs`, `src/session.rs`:
  statement matchings, call stacks, joins and de-duplication of results.
- `src/name_map.rs`, `src/symbol_table.rs`: the symbol tables of a pattern file
  (metavariables, ADT, function and `impl` patterns, parameters, locals, imports)
  and the errors reported while declaring and resolving them.
- `src/item.rs`: the ADT and function patterns of a pattern item.
- `src/predicates.rs`, `src/pat_attr.rs`, `src/diag.rs`, `src/lint.rs`,
  `src/attributes.rs`, `src/operation.rs`, `src/paths.rs`, `src/config.rs`,
  `src/context.rs`, `src/slot.rs`: predicates, pattern attributes, diagnostics
  and lint output.
- `tests/`: executable tests of the library on concrete values.
- `app/`: reading the `rpl.toml` configuration from disk (serde/toml), which
  the library cannot do itself.
