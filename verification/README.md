# toasty_driver_surreal

A SurrealDB driver for the Toasty ORM, whose query building, value encoding,
schema migration and transaction bookkeeping are verified with Verus.

- `src/` is the verified library. It turns Toasty operations into SurrealQL
  text with positional parameters, encodes and decodes values (including
  native JSON columns and `u64` values above `i64::MAX`), generates schema
  migrations, tracks the connection's transaction state, and classifies
  database errors. `src/laws.rs` states the properties that span several
  functions.
- `app/` holds what runs against the database: the `toasty_core` driver
  traits, the SurrealDB session, and the conversions between the library's
  types and those of `toasty_core` and the SurrealDB SDK.
- `tests/` exercises the library on concrete inputs.
