# anytls

The AnyTLS proxy protocol as a verified library, with a server, a client and an auditing proxy
around it.

AnyTLS carries proxied streams inside TLS connections and splits and pads its first packets so
that their sizes say little about what is inside. This crate holds the part of such a proxy that
decides: frames and their codec, the padding of packets, sessions and their logical streams, the
pool of idle sessions, UDP over TCP, `anytls://` URLs, the registry of users with its quotas and
expiry dates, the management API and the exchange with a panel. Every function states what it
returns in `requires` and `ensures` clauses, and Verus proves that it does.

## Layout

- `src/` is the library. Each module starts with what it is about; `pub proof fn` items state the
  laws that hold across functions, such as that what one peer writes is what the other reads, in
  whatever pieces it arrives and however it was padded.
- `tests/` runs the library on concrete values.
- `app/` is the program: sockets, TLS, timers, HTTP and files. It hands the library plain values
  and performs the actions that the library returns.

What the library takes from other crates (byte buffers, the index map of sessions, SHA-256, URLs
and their encodings, UUIDs, SOCKS addresses) it calls through small wrappers. Their contracts are
the only statements that are not proved; each names the function it calls.
