# oxid64

A Base64 codec (RFC 4648, padded) whose engines follow the block schedules of
SIMD kernels for SSSE3, AVX2, AVX-512 VBMI, NEON and WebAssembly SIMD128, next
to a fast scalar engine. The engines are portable safe code verified with
Verus: every engine decodes and encodes as the Base64 model in
`src/engine/b64.rs` says, and the decode kernels reject exactly the inputs with
a bad character among the bytes their schedule validates, where the schedule
follows the kernel's guards on both the input and the output length.

Layout:

- `src/engine/` the model (`b64`), the lane operations (`lanes`), the vector
  steps shared by the kernels (`vector`), one file per engine, the pure
  schedule models (`models/`) and the laws that relate the engines (`laws`).
- `src/simd/`, `src/scalar.rs` the codecs of the first API.
- `src/cpu.rs` instruction-set names from CPU feature bits.
- `src/synth/` the analyses behind the decoders' lookup tables: hash
  buckets, check and offset tables, predicate splits and the rate of
  ambiguous bytes.
- `src/perf.rs` benchmark modes, inputs and checksums.
- `app/` the command-line tools and benchmarks (I/O, timing, threads, CPU
  detection), on top of the library.
- `tests/` the tests.
