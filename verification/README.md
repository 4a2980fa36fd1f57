# gpu_layout

Lays out values in GPU buffers under the std140 rules of GLSL uniform buffers, and moves them
in and out of byte buffers. Written in Verus: every function in `src/` carries a contract that
Verus proves.

- `src/layout.rs`: alignments (powers of two), sizes (non-zero), layout metadata, the
  `GpuLayout` trait, rounding to an alignment and its laws.
- `src/std140.rs`: the std140 rules for arrays, vectors, matrices and structs (field offsets,
  paddings, struct alignment and size), with their laws; the layout of arrays.
- `src/rw.rs`: the `BufferRef`/`BufferMut`, `WriteInto`/`ReadFrom`/`CreateFrom` traits, the
  `Reader` and `Writer`, the per-field steps of a struct (`write_field`, `read_field`: a field,
  then its padding stepped over), `ByteBuffer` for buffers whose read and written bytes are the
  same, and the law that a read gives back what was written. A `Writer` over
  an owned buffer hands it back with `into_buffer`, so that what was written can be read from
  it with contracts that say which bytes it holds; over a borrowed buffer (`&mut`), the writes
  land in the borrowed bytes as well, but no contract ties them to the lender.
- `src/buffers.rs`, `src/bytes.rs`: byte slices, arrays and vectors (also of possibly
  uninitialized bytes), and references and smart pointers to them, as buffers.
- `src/scalar.rs`, `src/array.rs`: `u32`, `i32` and arrays written and read little-endian.
- `app/`: the error types with `Display` and `std::error::Error`.
- `tests/`: layouts and round trips on concrete values.
