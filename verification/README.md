# server3

An HTTP reverse proxy and cache for mostly-static objects from S3 buckets or
HTTP servers. This crate holds its verified core; `app/` holds the server
around it.

## Layout

- `src/` — the library, verified with Verus:
  - `capacity.rs`: the pool of disk capacity and the reservations taken from it.
  - `config.rs`: the configuration values the caching logic reads, and their defaults.
  - `rules.rs`: per-route cache rules and how they follow from the configuration.
  - `routes.rs`: the route table (patterns matched by `path-tree`).
  - `cache.rs`: what a host's cache does with a request.
  - `storage.rs`: the shared index of cached resources (least recently used
    order kept by `lru`), its eviction and capacity steps, and the file
    descriptor limits it is sized by.
  - `upstream.rs`: chains of upstreams, S3 object keys, upstream URLs and
    HTTP status handling.
  - `host.rs`: reading the request's host from its `Host` header.
- `tests/` — tests of the library.
- `app/` — the program: configuration loading, the HTTP server, the upstream
  clients, temporary files, metrics, and the request loop that runs the
  library's decisions.

Instants and spans in the library are nanoseconds on the server's monotonic
clock.
