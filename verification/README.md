# blogview

Reading, rendering and converting binary structured log records, with the
behaviour of each step stated and proved with Verus.

A record is framed (start marker, CRC32C, tail marker, uvarint length) and holds
a version, a time, a level, an optional location, a message and a context: a
flat sequence of typed elements, with groups and error chains.

- `src/log_parse.rs`: framing, uvarints and zigzag numbers.
- `src/log_parser*.rs`: reading a record into header fields and a flat list of
  context nodes.
- `src/log_render*.rs`, `src/log_rend*.rs`: the text line of a record, flat (JSON
  like) or as a tree, colours, durations, times, stack traces.
- `src/log_transfomer_into_json.rs`: one JSON object per record.
- `src/log_transformer_repack.rs`: records framed anew without their context.
- `src/ctxview.rs`: a linked view of a context and its text dump.
- `app/`: file reading and writing, and filling the numbered places that the
  renderers leave in their output for floating-point numbers (written with
  `ryu`). Points in time are written by the library itself, as the local civil
  time of the instant.
