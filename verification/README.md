# substreams-database-change

Collects what is to happen to the rows of database tables and turns it into a list of changes
for a sink.

- `src/tables.rs`: `Tables`, `Rows`, `Row` and `Ordinal`.
- `src/model.rs`: what they stand for, and what each operation makes of them.
- `src/laws.rs`: what holds of them whatever is done.
- `src/key.rs`: primary keys, single or composite.
- `src/value.rs`: how values are written into columns; `src/scalar.rs` and `src/text.rs` hold the
  values and the texts.
- `src/outside.rs`: the functions of std and of other crates that write values, with what they are
  trusted to return.
- `src/map.rs`: maps that list their entries in a fixed order.
- `src/pb.rs` and below: the messages in which changes are handed on.
- `app/`: the same calls with a panic where a row does not allow them, and conversions from the
  types of other crates.

What stands in `src/` is verified with Verus, but for the items of `src/outside.rs`: their
contracts are trusted.
