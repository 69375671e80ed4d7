# zed_web

The logic of an editor that runs in a browser, and of the server behind it, written in Verus.
Verus proves what the contracts of the functions under `src/` say, from what is believed of a
few outside functions.

- `src/serve/` is the server: tokens, routes, files, sessions and participants.
- `src/terminal.rs`, `src/notebook.rs`, `src/kernels.rs`, `src/clipboard.rs`, `src/title_bar.rs`
  and `src/settings.rs` are the editor.
- `src/client_state.rs` and `src/database.rs` keep the state of the editor.
- `src/text.rs`, `src/percent.rs`, `src/json.rs` and `src/request.rs` are what the others share.
- `app/` holds the sockets, the files, the SQL engine and the clocks.
- `tests/` runs the library on concrete values.

A function marked `#[verifier::external_body]`, an `assume_specification` and a type marked
`#[verifier::external_type_specification]` are believed, not proved. Each says in its comment
what it claims of the outside function behind it; of a reading of the clock, nothing is
claimed.
