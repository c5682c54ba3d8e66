# ipinfo-round-robin-api

An HTTP proxy for [IPInfo](https://ipinfo.io) that rotates through several API keys, lets a key
rest after the upstream refused it, caches responses, and lets concurrent requests for the same
share one upstream call. It runs as a server and as a Cloudflare Worker.

The logic is a library verified with [Verus](https://github.com/verus-lang/verus). What talks to
the network, the environment and the platform is ordinary Rust around it.

## Layout

`src/`, the verified library:

| Module | What it holds |
|---|---|
| `config` | settings from environment variables, masking of keys |
| `rotator` | round-robin choice among keys, cooldown |
| `cache` | cache with time-to-live and eviction of the least recently used entry, over `dashmap` |
| `flights` | coalescing of requests for the same cache key |
| `proxy` | the steps of a proxied request on the server, and the internal endpoints |
| `stats` | request counters |
| `http` | replies, status codes, header values |
| `json` | redaction of the token in `/me` responses, over `serde_json` |
| `clock` | the monotonic clock, over `web-time` |
| `text` | text operations with exact contracts |
| `worker` | settings, rotation and proxy steps of the Worker |

Each function that reads the clock has a twin with `_at` in its name that takes the time as an
argument. The public proof functions whose names start with `law_` state what holds of the library
as a whole.

`app/`, the programs: `main.rs` and `server.rs` (Tokio, Axum, Reqwest), `edge.rs` (Cloudflare
Workers), `env.rs` (environment variables and `.env`), `report.rs` (JSON answers).

`tests/`, tests of the library.

## Configuration

| Variable | Default | Description |
|---|---|---|
| `IPINFO_KEYS` | **required** | Comma-separated API keys |
| `PORT` | `8080` | HTTP listen port (server) |
| `HOST` | `0.0.0.0` | Bind address (server) |
| `COOLDOWN_SECONDS` | `60` | Seconds before a refused key is used again |
| `REQUEST_TIMEOUT_MS` | `5000` | Timeout for upstream requests (server) |
| `CACHE_TTL_SECONDS` | `300` | Time-to-live of a cache entry |
| `CACHE_MAX_ENTRIES` | `10000` | Entries before the least recently used is evicted (server) |
| `CACHE_MAX_BODY_BYTES` | `32768` | Responses larger than this are not cached |
| `LOG_LEVEL` | `info` | `debug` / `info` / `warn` / `error` (server) |
| `LOG_FORMAT` | `text` | `text` or `json` (server) |
| `IPINFO_BASE_URL` | `https://ipinfo.io` | Upstream |
| `REDACT_KEYS` | `false` | Redact the token in `/me` responses |

On the server a number that cannot be read is an error; on the Worker its default is taken.
