# ashell

The verified core of a terminal's SSH backend and of its semantic highlighting.

- `src/scan.rs` finds whole-word keywords, IPv4 addresses, URLs and ports in a
  line of terminal text, with the byte lengths of each match.
- `src/highlight.rs` decides, for a grid of rendered cells, which cells are
  highlighted and as what (error, success, failure, warning, info, debug,
  address, URL, port); earlier rules win where matches overlap.
- `src/session.rs` is the state machine of a running SSH session (what each
  command from the tab and each channel message leads to, and why a session
  ended), the handling of prompt answers, and the texts of connection and
  authentication failures.
- `src/auth.rs` is the state machine of authentication (password, key with
  passphrase prompt, keyboard-interactive) and the status texts shown while
  connecting.
- `src/keys.rs` cleans up pasted private keys, reads key paths, decodes inline
  keys through russh, and lists the hash algorithms a key is offered with.
- `src/creds.rs` remembers passphrases and keyboard-interactive answers per
  session.
- `src/text.rs` holds the string helpers the others are proved against.

`app/` performs the I/O around the library: the russh connection, the tokio
tasks, prompts, reading key files, and the colours of highlighted cells.
