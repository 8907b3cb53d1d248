# sccache_net

Socket addresses and connection rules shared by every transport: TCP, Unix domain sockets and
Windows named pipes.

- `src/` is the verified library: address types, their text and its parsers, the retry rule of a
  client and the bookkeeping of a pipe server. The contracts are proved with Verus.
- `app/` is ordinary Rust around it: streams, listeners and pipe servers.
- `tests/` runs the library on concrete values.
