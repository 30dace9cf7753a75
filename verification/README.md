# cdn-seeder

Seeds a torrent whose pieces lie on a CDN, one resource per piece. A read of a piece becomes a
range request; nothing is kept on disk.

- `src/` is the library, verified with Verus: how a torrent is cut into pieces, which bytes a
  read asks for, how a request is retried, what its answers mean, which pieces are marked as
  complete, how the peer port is forwarded. What needs the network is written as a state
  machine: the library says what to do next, and is told what came of it.
- `app/` is the program around it: it sends the requests, runs the torrent session, and offers
  the C interface.
- `tests/` runs the library on concrete values.

What the library takes on trust stands in `src/http.rs`, `src/storage.rs`, `src/torrent.rs` and
`src/cdn_fetch.rs`, at the items that call `reqwest`, `sha1`, `fx_torrent` and `core`.
