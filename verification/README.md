# vortex_core

Verified core of a columnar file format and of its bridge to a database. Functions in `src/` have
contracts that Verus proves, and the laws of the library are public proof functions named
`law_...`. What is not proved but believed are the contracts of the small functions that call
another crate or the standard library; these are marked `external_body`, and their comments say
what they claim.

- `encryption`, `footer`, `segments`: segments of a file, laid out, encrypted with AES-GCM and read
  back.
- `lpm`: tokenizing byte strings by the longest token of a dictionary of the `onpair` crate.
- `varbin`: minimum and maximum of byte strings held as views.
- `expr`, `row_count`, `bind`: binding statistics in expressions to what a scope has for them.
- `sparse`: choosing a sparse encoding for integers.
- `stats`, `dtype`: statistics and logical types.
- `duckdb`: the bridge. `ext_types` and `enum_metadata` are its extension types, `exporter` turns
  arrays into vectors, `leaf_stats`, `accumulate`, `copy_stats` and `copy` are the COPY function,
  `full_metadata` is what a footer says of a file, `ffi` are the records of the C API.
- `object_path`: keys of object stores.
- `bytes`, `order`, `text`, `sorted_map`, `table`: what the others are built on.

`app/` connects the core to async runtimes, channels, files and the C API. `tests/` runs the
library with the crates that it calls.
