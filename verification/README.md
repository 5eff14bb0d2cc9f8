# engine

Identifier logic of a panel-data econometrics engine (fixed and random effects),
verified with Verus, with the floating-point computations beside it.

- `src/` is the verified library. `panel::groups` groups entity, time and cluster
  labels; `panel::fe` and `panel::re` hold the checks a fit runs before and after
  its regression (singleton groups, balanced panels, degrees of freedom, cluster
  counts, the Driscoll-Kraay bandwidth); `panel::layout` holds the names and
  identifier columns of an input; `panel::properties` states the properties that tie
  these together. `error`, `options` and `columns` cover error messages, the parsing
  of standard-error names and parameter names.
- `app/` holds what the library does not model: the within and quasi-demeaning
  transformations, covariance matrices, R-squared measures and the Hausman test in
  `f64`, the faer thread setting, and the error types as `std::error::Error`.
- `tests/` runs the library on concrete inputs.
