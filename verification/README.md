# seedchamp engine

The engine of a BitTorrent client: peer wire, piece staging, uploads, trackers, disk and hash
workers, and the session that ties them together.

- `src/` is the library, verified with Verus. It decides: what a message means, which piece is
  fetched next, which peer is dialed, when a tracker is asked, what is written where. It touches
  no socket, file, thread or clock; what these bring comes in as plain values.
- `app/` is the engine around it: sockets, files, threads, clocks, and what counts in floating
  point (shares of a processor).
- `tests/` runs the library on concrete values.

Modules of the library:

| Module | What it holds |
|--------|---------------|
| `wire` | messages, the fast extension, names of clients |
| `staging` | piece buffers, and pieces while their blocks come in |
| `hot` | a running torrent: layout on disk, pieces had and wanted, claims, availability |
| `peer` | one connection: handshake, messages, requests, what is sent next |
| `upload` | serving of blocks |
| `runtime` | disk and hash workers, the depth of the pipeline, load over worker threads |
| `tracker` | announces over HTTP and UDP, limits for each host |
| `session` | schedule of announces, dialing, lifecycle, what is shown and stored |
| `rate` | rates in whole bytes per second |
| `rate_limit` | limits on what all peers together send and fetch |
| `process_metrics` | threads and filesystems of the process |

Outside crates are called through a few wrappers, each with its contract beside it: `hash`
(SHA-1), `hex`, `random`, `text`, `tracker::limit` (addresses) and `session::dial` (shuffling).
