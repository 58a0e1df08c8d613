# lx-term

The logic behind lx-term's local features, written in Verus: the functions under
`src/` carry contracts that Verus proves, but for a few calls into outside crates.

- `src/edit`: a blocking editor shim for `$EDITOR`. It asks the terminal to open a
  file, waits for the marker files that answer, and falls back to another editor
  where nothing answers.
- `src/pending_edit.rs`: the edits that wait for an editor tab to be closed.
- `src/history`: atuin's command history, and searching it.
- `src/file_path.rs`, `text.rs`, `json.rs`, `hexadecimal.rs`, `unique_id.rs`,
  `anonymous_id.rs`: what the above is made of.

`app/` holds what reads and writes files, talks to the terminal, opens the database
and runs processes. It asks the library what to do and reports what happened.

Paths follow the rules of Unix: byte strings whose segments a slash separates.

What is believed rather than proved is marked `external_body`, each with a comment
that says what is claimed of which outside function.
