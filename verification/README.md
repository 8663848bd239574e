# freeblock

The decision core of a DNS-filtering proxy, written and proved in Verus, and the
device-side program around it.

- `src/` is the library. It decides what becomes of each packet that reaches the
  tunnel device: queries for blocked domains are answered as not existing, other
  queries are forwarded over QUIC, TCP is refused, and the rest is dropped. It
  also holds the state of the upstream connection, the race that sets one up,
  and the bookkeeping of runs.
- `tests/` runs the library on concrete packets, messages and events.
- `app/` holds the sockets, the tasks and the tunnel device.

DNS messages are read and composed by `domain`, IP packets by `etherparse`, the
blocklist is filed in a `radix_trie`, and runs are cancelled by the tokens of
`tokio-util`. Each call into one of these stands
behind a function whose contract says what is relied on.
