# bsv

Reading of BSV files: two bytes (the magic byte `0xBF` and a format byte), a
header whose size is given as a big-endian `u16` and which holds the row count,
the largest row size, the schema version and one schema per column, and then
the rows, each a value per column encoded as its schema says.

- `src/ext.rs`: the byte source (`ReadExt`, `ByteReader`) and the reads that the
  format is made of: variable-length quantities, big-endian numbers, blobs and
  null-terminated strings.
- `src/column.rs`: value types, values, schemas, and reading a value.
- `src/reader.rs`: the header and `BsvReader`, which reads rows.
- `src/error.rs`: the errors.
- `app/main.rs`: the command-line tool that dumps a file or writes it as CSV.

Each reading function is verified with Verus against a specification over the
sequence of bytes not yet read.
