# svtav1_encoder

Encoder decisions of an AV1 encoder as a verified library: quantization and its
trellis, mode costs, reference keeping, switch frames, restoration search,
super-resolution, the temporal filter and the look-ahead.

- `src/` is the library. Every function states what it returns or changes, and
  the properties that span functions stand beside them as proof functions.
- `tests/` runs the library on concrete values.
- `app/` holds what works in floating point, and drives the sample kernels that
  the library takes as arguments.

Kernels that work on samples (transforms, interpolation, block errors) are
handed to the library as functions, or their results as values; the library
decides what is asked of them and what is made of the answers.
