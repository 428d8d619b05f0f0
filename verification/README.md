# ggml

Verified building blocks of a GGML-compatible runtime, written in Verus.

- `src/gguf`: a strict, bounded parser for GGUF version 2 and 3. `grammar.rs`
  says what a file means; `parser.rs` reads it step by step, from a byte slice
  (`file.rs`) or through a seekable reader (`header.rs`). `stream.rs` says what
  a reader comes to that is driven over a whole file.
- `src/model`: a tensor index bound to the SHA-256 digest of its file, the
  decoding of F32, F16, BF16 and block-quantized weights, products that are
  computed directly from quantized matrices, and conversion to affine layout.
- `src/tensor`: checked row-major tensors. What a number is and how it is added
  or multiplied is left to the `Arithmetic` trait; contracts say which
  operations are applied to which values.
- `src/graph`: graphs of tensor operations, evaluated in insertion order.
- `src/memory`: versioned, content-addressed memory for several agents.
- `src/mapping.rs`, `src/inspect`: the checks of bounded file mappings, and the
  command line and report of `gguf-inspect`.

Properties that relate several functions are proof functions named `law_...`;
most stand in the `laws.rs` file of their directory.

`app` holds `gguf-inspect` and the input and output around the library. `tests`
holds the tests.
