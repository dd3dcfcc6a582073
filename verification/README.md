# sweet_bananza

The game engine of the Sweet Bananza slot API, written in Verus.

- `src/` is the verified library: the symbol table and weighted random
  symbols, the "pay anywhere" win rule (a symbol pays once it fills eight
  cells), cascades with gravity and refills, bomb multipliers, scatter free
  spins, the bought bonus, and the account rules of the data endpoint.
  Money is an `Amount` (the mantissa and scale of a `rust_decimal::Decimal`);
  its arithmetic is done by `rust_decimal`. Randomness comes from `rand` and
  `uuid`; the contracts state what holds of every random outcome.
- `app/` is the HTTP server (axum, MongoDB) around the library.
- `tests/` exercises the library on concrete grids and random spins.
