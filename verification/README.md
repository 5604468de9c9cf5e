# all-llama-proxy

A proxy in front of several Ollama backends. Users authenticate with bearer tokens, of which only
SHA-256 digests are kept. Requests wait in one queue per user; users take turns, and VIP users come
first. A request goes to a backend that is online and has the requested model, with a limit on
concurrent requests per model and backend.

- `src/` is the library, verified with Verus. It holds the registry, the model configuration, the
  dispatcher, the health bookkeeping, the model listings, the log buffer, the dashboard protocol and
  the dashboard's state. Laws about several functions are public proof functions whose names begin
  with `law_`.
- `app/` is the program around it: files, HTTP, timers and the terminal.
- `tests/` runs the library on concrete values.

What the library takes on trust stands in a few small functions marked as external, each with a
comment on what is claimed: SHA-256 and constant-time comparison (`digest`), JSON (`json`), time
(`clock`), header maps (`headers`), and lower-casing and UTF-8 validation (`text`).
