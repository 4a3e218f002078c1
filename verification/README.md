# dol

Schema, query and wire vocabulary for the Data Operating Language, written
in Verus: every function carries a contract and is proved against it.

## Layout

- `src/varint.rs`, `src/decoder.rs`, `src/encoder.rs`: the postcard-style
  wire format. `Reader` is a bounds-checked cursor, `Writer` an append-only
  sink; each read and write is specified by the bytes it consumes or
  appends. A varint whose value does not fit its width is refused. Every
  decode runs under a `Budget` that caps how deep values may nest: a decode
  fails with a depth error exactly when fewer levels remain than the input
  nests. `encode_to_vec` charges the same budget, so a value nested too
  deep for a peer to decode is refused before it is sent.
- `src/prim.rs`, `src/compound.rs`: codecs for integers, `bool`, `String`,
  `Option`, `Vec` and pairs.
- `src/codec.rs`: the laws tying an encoder to its decoder: every value
  within the length caps reads back exactly, whatever follows it, and no
  strict prefix of an encoding decodes.
- `src/core_types.rs`, `src/network.rs`: bit strings, source spans, file
  ids, calendar intervals, IP and MAC addresses, with their wire form.
- `src/scalar.rs`: validated scalar leaves (decimals, calendar dates and
  times, offsets, geometric shapes over IEEE-754 bit patterns, extension
  payloads) and the checks their decoders apply.
- `src/value.rs`, `src/literal.rs`: the dynamically typed `Value` and the
  owned `Literal`, with their stable-discriminant codecs and round-trip
  laws.
- `src/data_type.rs`: column and value types (`DataType`, `StructField`)
  and their stable-discriminant encoding.
- `src/schema.rs`, `src/entity.rs`: referential actions, relation
  references, entity constraints, catalog handles, fields and entities,
  with builders, lookups and codecs.
- `src/expr_node.rs`: flat expression nodes and their opcode-driven wire
  form, under an opcode numbering handed in as a table.
- `src/signed.rs`: signed envelopes (header, length-prefixed payload,
  length-prefixed signature) over caller-supplied signers and verifiers.
- `src/query.rs`: the query entry point (`Query`), the insert builder and
  the upsert builder with its lowering to an `UpsertPlan`.
- `src/pipeline.rs`, `src/stream.rs`: pipeline graphs (row schemas, sources,
  transforms, sinks), streaming vocabulary and
  the FNV-1a hash that names extension payloads.
- `src/hash.rs`, `src/digits.rs`: BLAKE3 content hashes and their hex form.
- `app/`: serde mirrors of the serializable types and a postcard-based
  content hash.
