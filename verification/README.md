# burkaz_core

The core of the Burkaz search index, written in Verus.

`src/` is the verified library:

- `address`: object addresses (segment ordinal in the high half, document id in the low half).
- `encoding`: little- and big-endian integers through `byteorder`, and UTF-8 checks.
- `serializable`: the `BinarySerializable` layout of integers, booleans, strings and vectors,
  with a read-back law for every implementation, and `BinaryError`, why bytes do not hold a value.
- `object`: stored objects (a header of field/range entries over one value buffer), their
  stored form, encoded values and the accessors that read them.
- `term`: search terms and the serialized form the search engine takes.
- `document`: reading and writing the field values of a search-engine document.
- `schema`: field descriptions, the codes callers pass them as, and the engine options they map to.
- `index`: where an index lives, and the segment check made before an object is fetched.
- `error`: the library's errors and the slot that keeps the last error message.

`app/` is the C interface and the parts that drive the search engine (opening indexes,
committing writes, running queries).
