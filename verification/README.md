# etr

A remote terminal that survives disconnections. The client starts a server on the remote
host over SSH, connects to it over QUIC, and reconnects whenever the connection is lost; what
was sent in the meantime is replayed.

- `src/` is the library: everything that client and server decide and compute, with
  contracts that Verus proves. The start of each module says what it holds; proof functions
  whose names start with `law_` state what holds across functions.
- `app/` holds the programs around it: sockets, files, the terminal, child processes.
  `etr` is the client, `etrs` the server, and `stress_tool` makes load for forwarded ports;
  the name by which the program is called chooses.
- `tests/` holds the tests.

Encryption, key exchange, random numbers, certificates and the codec for variable-length
integers come from outside crates. Each call into one stands in a small function marked
`#[verifier::external_body]`, whose doc comment says what its contract takes for granted.
