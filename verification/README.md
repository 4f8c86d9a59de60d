# smolweb

Clients and servers for the small-web protocols — DICT, Finger and
WebFinger, FSP, Gemini (with Titan uploads and trust-on-first-use pinning),
Gopher and Gopher+, Guppy, Kepler, Nex, Scorpion, Scroll, Spartan and the
Text protocol — written as a Verus library whose behaviour is stated in
`requires` / `ensures` contracts and proved.

## Layout

- `src/` — the verified library, one module per protocol, plus shared
  modules: `bytes` (byte strings, UTF-8, CRLF lines), `text` (character
  strings, decimal numbers, trimming and splitting) and `urls` (URLs, read
  through the `url` crate into plain parts). Each protocol module holds its
  wire formats (parsers and writers, with laws that what is written reads
  back) and the decisions of its clients and servers, as functions from
  plain values to plain values: which datagram or line to send next, what a
  received one settles, when a session ends.
- `app/` — the I/O around the library: sockets, TLS, timers, files, the
  command-line tools and the JSON of WebFinger. It performs what the library
  decides.
- `tests/` — tests of the library on concrete values.

Calls into outside crates (`url`, `percent-encoding`, `idna`, `ring`) and a
few std functions stand behind small trusted wrappers whose contracts say
what the outside code does; everything else is proved.
