# ghidra_mcp

The verified core of an MCP bridge to a Ghidra server, written in Verus.

- `src/pkce.rs`: the proof key check of OAuth 2.0 (RFC 7636), S256 only.
- `src/schema.rs`, `src/names.rs`: from the server's `/mcp/schema` description to
  MCP tools, each with a name of its own and a JSON Schema for its parameters.
- `src/store.rs`: the storage operations on authorization codes and tokens. An
  operation names the database call to make next and is told how the call went.
- `src/database.rs`: what those operations do to a transactional database.
- `src/shared.rs`: the same where several operations are under way at one time.
- `src/clock.rs`, `src/json.rs`, `src/text.rs`: the clock, JSON values and text.

`app/` holds what touches files and the wire: the `redb` database, the records as
JSON, and error messages.

What is believed without proof stands beside its doc comment as an
`external_body` function or an `assume_specification`: SHA-256, base64, the
constant-time comparison, the JSON values of `serde_json`, the system clock and
`String::push`.

The laws of `src/database.rs` and `src/shared.rs` hold of a database and an
encoding of the records that behave as `step` and `shared_step` say: a write
transaction works on a copy that a commit puts in place, one is open at a time, and
decoding gives back what was encoded. That `redb` and the JSON in `app/` behave so
is believed as well.
