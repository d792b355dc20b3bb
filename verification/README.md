# my-socks-server

A SOCKS5 proxy (RFC 1928 `CONNECT`, RFC 1929 username/password authentication) whose logic is
verified with Verus.

* `src/` is the verified library: the wire formats of every SOCKS message (decoders on byte
  slices and encoders, with round-trip laws), IP and socket address text as std reads and
  prints it (every address, network and whitelist entry reads back from its own text), the
  client whitelist and destination policy, the brute-force ban table, settings validation,
  and the server's decisions during a connection (screening after `accept()`, method choice,
  credential check, request outcome, address selection, close reasons, log throttling).
* `tests/` runs the library on concrete values.
* `app/` is the program around it: `main`, the settings file (YAML), the Tokio accept loop,
  the byte-by-byte message reader over TCP streams, the relay, signals and logging.

Durations in the library are milliseconds; the ban table and the throttles take the time as an
argument or read it through a small clock wrapper.
