# redefmt

Deferred formatting: a logger writes, for each print statement, only the ids
of the statement and the raw values of its arguments; a decoder on the host
reads frames back from the byte stream and looks the statements up in a
registry of crates and statements.

The library under `src/` is verified with Verus:

- `encoding`, `write_primitive`: how values are written (type hint, then
  big-endian raw bytes), with a proof per type that the decoder reads each
  value back (`DecodesBack`).
- `parse`: the byte format as spec functions; `parse_lemmas`, `step_lemmas`:
  facts about it.
- `decoders`, `frame`: incremental decoders for values and frames; each call
  is specified against the parse of all bytes fed so far, so bytes may arrive
  in pieces of any size.
- `logger`: the logger state (dispatcher, stamper) and the start of a frame,
  with the proof that a frame a logger writes decodes to its statement and
  values.
- `tuple_permutations`: the tuple types generated for every mix of `&dyn`
  and generic elements.
- `statements`, `header`, `type_hint`, `pointer_width`, `identifiers`,
  `values`, `errors`: the data the others share.
- `buffer`, `text`: the calls into `bytes`, `encode_unicode` and std's UTF-8
  conversions, with their contracts.

`app/` holds what stays outside verification: the `tokio_util` codec, the
error type with its messages, the program-wide logger behind a critical
section, and float conversions.
