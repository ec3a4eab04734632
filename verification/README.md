# monami

A small monitoring service: clients run a shell command at a fixed interval and
report its output to a server in UDP datagrams sealed with a shared secret
(SHA-512-derived AES-256-CBC key, zero IV, PKCS#7 padding, Base64). The server
keeps a registry of the nodes that reported recently and answers control
requests (`get-details`, `list-nodes`).

Layout:

- `src/` — the verified library (Verus):
  - `utils.rs`: sealing and opening of payloads; the calls into `sha2`,
    `rust-crypto` and `base64` stand behind trusted wrappers whose results are
    named by uninterpreted spec functions.
  - `shared.rs`: the message types and their views.
  - `server.rs`: the node registry, its invariant (distinct client ids), the
    answer to each kind of message, and lemmas about reports and listings.
  - `client.rs`: the client's identity and its status reports.
- `app/` — the program: command line, sockets, timers, the shell command, and
  the JSON forms of the messages.
- `tests/` — tests of the library.
