# atlas-net

A networking policy core whose logic is proved with Verus: request and
response models, header normalisation, URL parsing, signer chains, response
caching with a binary on-disk format, DNS and CDN selection, retries with
exponential backoff behind a circuit breaker, resumable chunked transfers,
middleware hooks, events, and the client that runs a request through all of
them.

- `src/` is the verified library. Every function carries a contract; the laws
  of the library (reading a cache entry back, the disk format round trip,
  chunk plans covering a transfer, the retry budget and backoff schedule, the
  circuit breaker's states, case-insensitive headers, weighted routing that
  visits every healthy node, answers stored by the client served back while
  fresh) are public proof
  functions or clauses of the functions they are about.
- `app/` holds what touches the outside world: the on-disk cache, the HTTP
  transport over `reqwest`, and a runnable gateway example.
- `tests/` exercises the library from outside.
