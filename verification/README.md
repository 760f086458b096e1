# refract_protocol

A protocol layer for an LLM gateway, written in Verus. Four wire protocols — OpenAI Chat
Completions, OpenAI Responses, Anthropic Messages and Google Gemini — are translated to and
from one intermediate representation (IR), for whole requests and responses as well as for
their server-sent-event streams.

## Layout

- `src/ir.rs` — the IR: requests, responses, content parts, usage, extensions (sorted by name).
- `src/json.rs` — a JSON value type with its model; parsing and rendering go through serde_json.
- `src/text.rs` — verified text helpers (search, trimming, character order, decimals).
- `src/stream.rs` — SSE frames, the incremental SSE parser, stream events and the aggregator
  that rebuilds a response from a stream.
- `src/codec.rs` — the codec traits, the built-in `Codec`, and `CodecSet`.
- `src/codec/{chat,responses,messages,gemini}.rs` — one codec per protocol, each with its
  stream decoder and encoder.
- `src/error.rs` — the gateway error type.
- `app/` — serde forms of the IR types, for callers that need `Serialize`/`Deserialize`.
- `tests/` — scenario tests.

The code in `src/` is proved by Verus against contracts stated over spec functions; the
laws of the library (round trips, stream invariants, orderings) are public proof functions
named `law_*`.
