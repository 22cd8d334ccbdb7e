# ridgepoint

LLM inference sizing that models the engine, not just the weights: given a model, a
set of devices, a quantisation and a serving engine, it says how many sequences fit,
how fast they are served, and what to change where they do not fit.

The library under `src/` is verified with Verus:

- `sizing`, `fit` — memory and roofline model, and the report on a setup
- `registry`, `choice`, `detect` — models, devices, quantisations, engines and dtypes
  by name, and local GPUs from the output of `nvidia-smi`
- `render`, `cli`, `api` — reports as text and JSON, commands and calls
- `rounding`, `binary64`, `decimal` — IEEE 754 binary64 arithmetic on bits, rounded to
  nearest, and its decimal notations
- `order`, `laws` — how the operations keep order, and what holds of the model as a
  whole: conserved memory, ordered bands, monotone capacity, advice that holds, values
  that read back
- `text` — string operations

Counts that do not fit in their integer type are answered with `None` or
`Failure::Overflow`; the functions without a `checked_` in their name ask for inputs
on which that does not happen.

`app/main.rs` is the command line around the library, `app/lib.rs` the Python module.
