# na_nbt

Reading, editing and writing Named Binary Tag (NBT) documents, in big
endian (Java Edition) and little endian (Bedrock Edition), with a serde
data format on top. The library is written in Verus: the functions in
`src/` carry contracts that the verifier proves, except the few
`external_body` wrappers in `src/mutf8.rs` and `src/serializer.rs` that call
`simd_cesu8` and `base64ct`, and the specification of `char::from_u32` in
`src/deserializer.rs`: their contracts are trusted and say what those
crates' sources and std's documentation show.

## Layout

- `src/model.rs` — NBT values as mathematical objects, the encoding of a
  value (`encode`) and the reader's decision on any bytes (`parse_payload`).
- `src/read.rs`, `src/write.rs`, `src/document.rs` — the reader and the
  writer of owned values and whole documents, proved against the model.
- `src/roundtrip.rs`, `src/canonical.rs` — reading what was written gives
  the value back; what is read writes back to the same bytes.
- `src/value.rs`, `src/list.rs`, `src/compound.rs`, `src/typed_list.rs`,
  `src/refs.rs`, `src/mutref.rs`, `src/config.rs`, `src/into_nbt.rs` —
  owned values, their borrowed and mutable views, and the list and compound
  edits; the laws of editing are in `src/laws.rs`.
- `src/skip.rs` — passing over a payload without building it; `src/stream.rs`
  — why reading a payload from a stream (gather bytes until the skipper
  finds the end, then read them) gives what reading the whole stream gives.
- `src/string.rs` — NBT strings made from Rust strings, and their text
  edits (decode, edit the text, encode again).
- `src/serializer.rs`, `src/deserializer.rs`, `src/tag_probe.rs`,
  `src/serde_laws.rs` — the byte-level half of the serde format and what the
  deserializer reads back of what the serializer writes.
- `src/byte_order.rs`, `src/tag.rs`, `src/mutf8.rs`, `src/error.rs` — byte
  orders, tag types, Modified UTF-8 (through `simd_cesu8`), errors.
- `app/` — the serde `Serializer`/`Deserializer` implementations, the error
  type with `Display`, the serialization markers and stream I/O, around the
  library.
- `tests/` — tests of the library on concrete documents.
