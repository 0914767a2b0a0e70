# clingo

Rust bindings for the clingo answer set solver, with the logic of the
bindings verified by Verus.

- `src/` is the verified library: symbols and their meaning as terms, the
  traits that read symbols into typed values and write them back, the codes
  and bitsets of clingo's C interface, error values and their messages,
  configuration paths, the state kept by a ground-program observer and by a
  solve call that reports models to a callback, model snapshots grouped
  by predicate, and the `Symbolic` impl derived from the shape of a type
  (with the checks that the derived impls call).
- `app/` holds the calls into clingo's C library (through `clingo-sys`):
  the control object, solving, models, configuration and the callbacks,
  and the derive entry that reads a type's shape with `syn`. It
  hands plain values to the library and acts on what the library returns.
- `tests/` runs the library on concrete values.

Reading and writing symbols share one trait each: `Symbolic` for a single
symbol (`from_symbol`, `to_symbol`) and `SymbolicArgs` for the argument list
of a function symbol (`from_symbols`, `to_symbols`); there are no separate
`FromSymbol` and `FromSymbols` traits. Rust has no stable trait aliases, so
code written against those names uses `Symbolic` and `SymbolicArgs`.
