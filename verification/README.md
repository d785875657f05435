# codex_chat

Turns a chat-completions SSE byte stream into response events, and holds the rules of the memory
runtime and of the model catalog that go with it.

- `src/` is the library, verified with Verus. Each public function states in its contract what it
  returns or changes; functions named `law_*` state what holds over several of them.
  - `text`, `sse`: characters, lines and payloads of an event stream
  - `chunk`, `tool_calls`, `response`: what chunks add up to, and the events that they lead to
  - `stream`, `stream_laws`: the course of one stream, as a conversation of actions and replies
  - `tool_map`, `name_map`: the tools by wire name
  - `runtime`: provider resolution, extraction output, consolidation agents
  - `model_catalog`: the models on offer
  - `json`, `ids`: the calls into `serde_json` and `uuid`
- `app/` performs the input and output.
- `tests/` runs the library on concrete values.
