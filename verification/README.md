# pyroduct

Packet buffers with a self-describing 16-byte header, verified with Verus.

- `src/` is the library, verified: the header layout and its checks, packet
  buffers and views, the encoding traits, stream framing, the write-ahead log
  frame format and the segmented record log (record framing, CRC-32C, index
  files, segment bookkeeping), instants and their ISO 8601 text, the
  column types of Rust values, and dynamically typed values with their
  repair into a schema's types (range-checked integers, parsed text, lists
  packed into lists of scalars, rows projected onto their fields).
  Floating-point numbers are held as bit patterns; the arithmetic on them
  is a `FloatOps` that the caller supplies. The laws the library keeps are public proof
  functions next to the code they are about (`lemma_frames_roundtrip`,
  `lemma_segment_roundtrip`, `lemma_frame_roundtrip`, ...).
- `app/` is the I/O around it: files, async streams and the background tasks
  that own the log writers, the JSON forms of the records, and the
  `FloatOps` done with Rust's `f32` and `f64`.
- `tests/` runs the library on concrete values.
