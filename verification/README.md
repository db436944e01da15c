# mysql_samp

A MySQL plugin for SA-MP and open.mp game servers, with its logic verified by
Verus.

- `src/` is the library: result caches and saved caches, option handles,
  runtime limits, SQL lexing (placeholders, statement splitting) and
  escaping, connection files, `mysql_format`, the ORM's query building and
  cache write-back, prepared statements, the transaction driver, the order in
  which finished queries reach their callbacks, Argon2id password jobs, and
  `PluginCore`, which decides what each script-facing native does. Everything
  in it is verified except five small trusted wrappers, each a single outside
  call: `String::push`, `Pool::clone`, `Vec::<mysql::Value>::clone`, the
  Argon2 hash and the Argon2 verification.
- `tests/` runs the library on concrete values.
- `app/` is the plugin around it: native registration, the script's memory,
  the server connection, worker threads and the log.

Outside crates: `mysql` (its `Pool` and `Value` travel through the library;
every exchange with the server happens in `app/`), `argon2` (called from the
library through two trusted wrappers) and `samp` (the plugin SDK, used by
`app/` only).
