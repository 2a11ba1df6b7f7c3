# heif_serialize

Serialization of animated AVIF and HEIC files: pre-encoded frames in, a timed
sequence out. Written in Rust and verified with Verus.

- `animated` is the builder and the serializer. Its contract says which bytes
  come out for which settings and frames.
- `sequence` says what those bytes are, built from `meta` (the file type and the
  still item), `track`, `sample_table`, `presentation`, `codec`, `boxes` and
  `hvcc`, on top of `framing`, `bytes` and `fourcc`.
- `reader` says how a reader finds its way through a file, by sizes, types,
  versions and identifiers, and `navigation` follows it through a serialized
  sequence.
- `laws` states what such a reader gets back: samples, durations, sync frames,
  plays, sizes, configurations and properties.
