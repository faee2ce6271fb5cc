# Ollama Gateway

An authenticated reverse proxy for [Ollama](https://ollama.com) and llama.cpp
servers, with [Langfuse](https://langfuse.com) tracing, metrics and an admin API.

- `src/` is the library: which request is admitted, where it goes, what is
  changed in it and in its reply, what is traced and counted, and what the admin
  API changes and shows. Every function has a contract that Verus proves.
- `tests/` runs the library.
- `app/` is the program around it: sockets, the HTTP client, the configuration
  file, the metrics database and the Langfuse client.

## Layout of the library

| Module | What it holds |
|--------|---------------|
| `config` | the configuration, its defaults, model patterns and processor rules |
| `auth` | bearer tokens |
| `state`, `admin` | the settings of a running gateway and the admin API |
| `registry` | backends by priority, and which of them have a model |
| `processors` | processors of requests and replies; the Gemma 4 tool-call fix |
| `proxy::route` | categories of paths, choice of a backend, request bodies |
| `proxy::upstream` | requests to backends |
| `proxy::stream` | streamed replies on their way to the client |
| `proxy::extract` | prompts, answers and token counts |
| `proxy::reply` | processing of replies, traces and metrics of calls |
| `proxy::aggregate` | model lists of all backends, merged |
| `langfuse`, `metrics` | events for Langfuse, the metrics of calls |
| `json`, `text`, `seqs`, `time`, `ids` | values, texts, sequences, times, UUIDs |

What comes from outside crates stands behind small functions whose contracts are
trusted: reading and writing JSON (`serde_json`), RFC 3339 texts and the clock
(`chrono`), base64, UUIDs and URIs (`hyper`).
