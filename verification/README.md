# mcpg-plugin-backend-net-core

A verified HTTP core for network backends. The decisions that a backend makes
around an outbound call are proved here with Verus:

- which of the addresses of a host a client may be pinned to,
- which client a call shares with others, and when a client is dropped,
- what a call sends: URL, query, headers, body,
- how much of a response body is kept,
- what a failure advises about retrying.

## Layout

- `src/` is the library. Each public function states what it returns, for every
  input that its `requires` admits; functions named `law_..` state what holds across
  functions.
- `tests/` runs the library on concrete values.
- `app/` does what the library leaves to its caller: name lookup, requests,
  streams, timers, metrics and logs.

The `http`, `url`, `serde_json` and `blake3` crates do their own work: header
maps, URLs, hashes, parsed JSON and the JSON text of strings come from them. The
text of JSON arrays and objects is put together here. What is taken on trust about
each call into those crates stands in the doc comment of the function that makes
it.

## Limits

A header map is sure to take 6554 names. A query is added to a URL only where the
changed URL is sure to stay under four gigabytes. A URL, and a body that is parsed as
JSON, has fewer than two to the power of 31 characters. Callers check these first.
