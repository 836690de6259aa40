# chicken

The logic of the Chicken game toolkit as a Verus library: integer geometry for the
polygon code, settings (validated paths with placeholders, JSON deltas against a
default, surgical TOML edits, load and save decisions, the `#[settings(..)]` attribute
syntax), server access control and
authentication, chat, LAN discovery packets, and the session step machines.

- `src/` is the verified library. Every public function states its result in its
  contract; `src/settings/delta_law.rs` proves that a delta applied to the default
  gives the settings back, and `src/edit_law.rs` that a surgical update puts the value
  at its key path, keeping the comments and spacing of the value it replaces, and a
  removal takes away its entry, leaving unrelated keys and their decoration alone.
- `tests/` runs the library on concrete values.
- `app/` is the runtime around it: serde conversions, TOML text, files, sockets and the
  asynchronous storage backend.
