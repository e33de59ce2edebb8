# rust-sync-proxy

A synchronous Gemini-compatible image proxy. `POST /v1beta/models/{model}:generateContent`
and `POST /v1/images/generations` are forwarded upstream; request images given as URLs are
downloaded and inlined, responses are cleaned up (thought signatures removed, one image per
candidate, Markdown image answers turned into inline data, large PNGs recompressed) and, in
URL output mode, images are uploaded to R2 or the legacy hosts. The aiapidev upstream is
driven as an asynchronous task (create, poll, answer). An admin log with Basic Auth records
every exchange.

Layout:

- `src/` — the verified library (Verus): configuration, upstream resolution, request and
  response rewriting, the request body encoding, the image caches (memory LRU by bytes, disk
  pruning plan, upstream refusal cache), which image URLs may be fetched, upload signing and
  the upload fallback, the admin log, and the decisions of
  the HTTP flows (error shapes, output mode, task polling). Each public function states its
  result in its contract; the laws of the library are public proof functions.
- `app/` — the server around it: axum routes, reqwest calls, file and network I/O, the
  background image downloads and the serde views of the admin API.
- `tests/` — tests of the library on concrete values.
