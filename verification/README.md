# oai-proxy

A proxy for OpenAI-compatible HTTP and server-sent-event interfaces. An upstream
that is slow to answer, or whose stream is slow to bring its first token, is given
up and tried again before the client has seen anything of it.

## Two layers

- With the policy switched off a request is passed on as it comes, once, and its
  answer is passed back as it comes.
- With the policy switched on the request body is read first. Attempts are then
  made one after the other. An attempt ends in a failure, which the client never
  sees unless it is the last one, or in an answer that is committed to. A
  successful stream of events is held back until an event carries something that
  the model produced; status events, pings, the end marker and deltas that only
  name a role do not count.

Requests, attempts and bodies are recorded on the side, where recording is
switched on, and never hold up forwarding.

## Layout

- `src/` is the library. It decides, and every decision has a contract that Verus
  proves. `src/interop/` holds the calls into other crates; their contracts are
  believed.
  - `proxy/routes.rs`: a request from its arrival to its answer, as a state machine
  - `proxy/attempt.rs`, `proxy/gate.rs`: one attempt, and holding its stream back
  - `proxy/relay.rs`, `proxy/direct.rs`: streams on their way, and their records
  - `proxy/sse.rs`, `proxy/semantic_token.rs`: events, and which of them carry a token
  - `proxy/headers.rs`: which header lines pass
  - `storage/`, `recording.rs`: settings, upstream, keys, records
  - `admin/`, `observability/`: what pages and counters show
- `app/` is the program: the HTTP server and client, the database, the pages.
- `tests/` runs the library.

## Running

The proxy listens on port 57999 of `OAI_PROXY_BIND` (`127.0.0.1`) and keeps its data
in `OAI_PROXY_DATA_DIR` (`data`), or in the SQLite database that
`OAI_PROXY_DATABASE_URL` names. `OAI_PROXY_UPSTREAM_BASE_URL` names an upstream to
begin with. `OAI_PROXY_RESPONSE_HEADER_TIMEOUT_MS`,
`OAI_PROXY_FIRST_TOKEN_TIMEOUT_MS` and `OAI_PROXY_MAX_ATTEMPTS` set the defaults of
the settings on `/admin/settings`.
