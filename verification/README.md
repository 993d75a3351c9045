# xptdms

Reading, writing and consolidating National Instruments TDMS files, with the
logic proved correct by Verus.

## Layout

- `src/` is the verified library.
  - `types`, `endian`, `header`, `reader`, `property`: the binary encoding of
    data types, numbers, lead-ins, strings and property values.
  - `segment`, `path`, `namemap`, `model`, `file`: the metadata of a segment,
    object paths, groups and channels, and indexing a whole file.
  - `channel_data`, `strings`, `primitive`, `chunk`: where a channel's values
    (or its stored strings) lie in the raw data, decoding them, and walking
    them in chunks.
  - `writer`, `defrag`: the bytes of a one-channel segment, and of the one
    segment that consolidates a file.
  - `readback`, `defrag_read`, `defrag_values`, `defrag_strings`,
    `defrag_written`, `successive`: what indexing and reading give back of what the writer and
    the consolidation write; `indexed`: the groups and channels that indexing
    builds agree with their paths; `counts`: how a channel's value count and
    type follow from the objects of the segments read; `trailing`: bytes
    after the last segment.
- `app/` is the unverified part: opening files from disk, writing files,
  floating-point values, display formatting and the Python bindings.
- `tests/` runs the library on concrete files.

Every function in `src/` states its behaviour in `requires` / `ensures` over
mathematical models (`Seq`, `Map`, spec functions). The calls into `byteorder`,
`memmap2` and two std conversions (`String::from_utf8` and collecting
characters into a `String`) go through a handful of trusted wrappers whose
contracts state what those functions document.
