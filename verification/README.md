# sentil

Runtime verification for Signal Temporal Logic (STL) and its probabilistic
extension PrSTL, written in Verus. The functions under `src/` carry contracts
that Verus proves, except the few marked `#[verifier::external_body]`: those
wrap a call into naga, wgpu or the standard library, and Verus believes their
contracts as written. The GPU probes depend on the machine, so nothing is
promised of what they find.

## Layout

- `src/formula/`: the syntax tree, the lexer and parser (proved equal to a
  grammar written as spec functions), the canonical text of a formula, and
  structural questions (variables, depth, temporality).
- `src/number.rs`: exact decimal literals in a canonical form.
- `src/semantics/`: sliding-window extrema (batch and online, proved to agree
  with the naive definition), violation spans, symbol tables, and what a
  streaming monitor accepts.
- `src/signal/`: a bounded ring buffer of samples, time-column detection, and
  interpolation modes.
- `src/spec_builder.rs`, `src/spec_builder/`: filling formula templates,
  choosing variants, setting parameters, and reading noise-model names.
- `src/gpu.rs`, `src/gpu/`: lowering formulas to WGSL, checked with naga, and
  probing for a WebGPU device.
- `app/`: display texts of the errors, and the readings that need binary64
  numbers.
- `tests/`: executable tests against the compiled library.

Run the verifier on `src/lib.rs`; the tests run as ordinary Rust tests.
