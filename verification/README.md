# plato_lab_guard

A lab that admits hypotheses through four gates (well-formed, falsifiable, novel,
bounded) and judges experiment results by Achievement Loss
`1 - comprehension * generalization * retention`, so that a high raw accuracy
cannot confirm a claim on its own.

Fractions are fixed point: scores and thresholds in millionths (`ONE = 1_000_000`
is 1.0), losses in units of 10^-18 (`LOSS_ONE`). Every comparison is exact.

A verdict's status is judged against the lab's Achievement Loss threshold (0.4 by
default): confirmed below it, falsified above it, inconclusive exactly on it. `passed`
reports whether the loss is within the hypothesis's own threshold.

Hypotheses and results are kept in vectors with unique ids rather than in hash maps
keyed by `String`: vstd's hash-map specifications give no usable facts for `String`
keys, while with vectors every lookup, replacement and invariant is proved.

- `src/fixed.rs` — the loss formula and decimal rendering of fixed-point values.
- `src/text.rs` — whole-word search, joining, and the calls to `str::to_lowercase` and `char::is_alphanumeric`.
- `src/hypothesis.rs`, `src/experiment.rs` — the records and the judgement of a result.
- `src/model.rs` — the abstract state of the lab, its gates, operations and invariant.
- `src/guard.rs` — `LabGuard`, whose operations are proved against the model.
- `src/laws.rs` — properties of the lab as a whole, proved over the model.
- `src/trace.rs` — the lab after any sequence of calls, and laws over such sequences.
- `app/lib.rs` — conversions between `f32` and the fixed-point units.
