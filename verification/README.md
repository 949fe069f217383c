# minitools

Verified building blocks of a few small command-line tools, written in Verus.

- `src/password.rs` – password generation from caller-supplied random draws
  (mandatory character per selected class, filler from the pool, Fisher–Yates
  shuffle), strength scoring, and the saved report.
- `src/prompt.rs` – interpreting typed answers: text, `i32`, yes/no.
- `src/markdown.rs` – HTML escaping, inline markup, line-by-line block
  conversion.
- `src/commands.rs` – a command table with `hello` and `help`, usage text and
  dispatch.
- `src/chat_server.rs`, `src/chat_client.rs` – the chat server's per-client
  decisions and the terminal client's state, input handling and layout.
- `src/text.rs` – characters, trimming, decimal numerals.

`app/` holds the programs themselves (terminal, files, network, randomness);
`tests/` runs the library on concrete values.
