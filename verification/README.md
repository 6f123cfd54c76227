# HappyView

The decisions of an AT Protocol AppView, written in Rust and proved with Verus:
permissioned spaces and their members, signed commits over a repo, delegation
tokens and space credentials, the writing and reading of records, keeping an
index in step with a repo that its user's PDS hosts, OAuth clients and their
sessions, and what Lua scripts may ask for.

- `src/` is the library. Each function states in its contract what it returns
  for every input. Properties that span functions are proof functions whose
  names begin with `law_`. Where a decision needs something from outside (a row
  of the store, an answer of another server), the function takes it as an
  argument, or returns a state that takes it.
- What the library has from other crates stands behind small functions marked
  `external_body`, mostly in `crypto`, `ipld`, `json`, `url` and `ambient`. Their
  comments say what is taken on trust.
- `app/` serves the endpoints with axum and offers the script APIs to Lua. It
  reaches the store, the keys and other servers through the trait `Platform`.
- `tests/` runs the library with the real crates.
