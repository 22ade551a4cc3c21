# databend_query

Parts of a query engine that reads tables stored as parquet, verified with Verus.

- `src/` is the library. Verus proves the contract of each of its functions, but for the calls into
  outside crates, which stand in `arrow`, `parquet` and `area` and whose contracts are taken as given.
  - `block_reader`: reads the projected fields of a block from its column chunks and from the cache
    of column arrays. `block_model` says what a read means, `block_laws` what holds of every read,
    `block` what comes out of one, and `column` what goes in.
  - `bloom`: reads the filter of a column from a bloom index.
  - `decoding`: which columns can be decoded to a field. It goes by the `shape` of the field, by the
    `encoding` of its `pages`, and by the `nesting` of its types.
  - `area`: the memory of aggregate states.
  - `admin`: the administrative procedures and their names.
  - `arrow`, `parquet`: the calls into `arrow2` and `parquet2`. Each item here, and each call in `area`,
    says what it claims of the outside crate.
  - `decimal`, `error`: numbers as text, and errors.
- `app/` is the engine around it: storage, caches, metrics and data blocks.
- `tests/` runs the library against real parquet files, and against such files with bytes changed.

## What can be read

`arrow2` panics on pages that do not hold what their headers and the schema say, such as a dictionary index
out of range or a length beyond the page. A read asks that there are none such, and
`try_deserialize_parquet_chunks` and `Xor8Loader::filter_bytes` tell by themselves whether that is so: they
look at the pages, decompressed, before they have them decoded. Pages that `arrow2` refuses with an error are
read, to that error.

A column may have 1024 pages, since those that are decoded to one array wait for each other on the stack. The
end of a process for want of memory is not covered.
