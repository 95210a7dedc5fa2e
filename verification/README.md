# filecloud

A small cloud for files: users log in, upload and download files in chunks, share them by public
links, and see the folders that they may view.

- `src/` is the library. It holds the rules: the folder tree and its permissions, users and
  passwords, links, the messages of the protocol, and both sides of a transfer as state machines
  that take in events and say what to do next. Every function states what it returns or changes,
  and Verus proves it. What holds across functions is stated by the public proof functions: in
  `map_laws.rs` of the folder tree, in `transfer_laws.rs` of transfers, in `compact/laws.rs` of the
  compact protocol, and elsewhere beside what they speak of.
- `src/client/` is the client's part of the protocol; `src/compact/` is a smaller protocol without
  users.
- `app/` does the input and output: sockets, threads, files, JSON, the command line.
- `tests/` runs the library on concrete values.

A few functions call other crates or the standard library (`uuid`, `argon2`, `blake3`, `chrono`,
UTF-8 decoding, `Debug` of text). Each such call stands in a function of its own, marked
`external_body`, whose doc comment says what is taken on trust.
