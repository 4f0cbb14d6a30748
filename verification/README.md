# ai-api-bridge

A bridge between language-model APIs. Clients speak the Responses, Messages or Chat
Completions dialect; every request is carried to an upstream that speaks Chat Completions,
and the answer, whole or streamed, is carried back in the client's dialect.

`src/` is the library, verified with Verus. `app/` is the program around it: settings,
SQLite, HTTP, Lua probes and floating-point sums. `tests/` exercises the library.

## The library

| Module | What it holds |
|---|---|
| `text`, `json`, `dict`, `double` | strings, JSON documents, ordered dictionaries and numbers by their encoding |
| `canonical`, `error` | the provider-neutral request and events; errors with their status and body |
| `config`, `config_json`, `columns`, `store` | settings, the documents they are stored as, and database rows with their columns |
| `wire` | the three dialects: parsing, building, stream parsing and emitting |
| `sse`, `stream` | event blocks out of bytes, and a whole upstream stream as a state machine |
| `router`, `failover`, `upstream` | who is asked, who is asked next, and what an answer means |
| `usage`, `probe`, `watcher` | metering, and the health of providers |
| `server`, `admin` | what the endpoints decide and answer |

Contracts speak of a mathematical model of each type (`XView` beside `X`, reached by `@`).
What holds across functions stands in public proof functions: beside what it is about, or
in the modules whose names end in `_laws`.

## What is trusted

A few functions hand work to other crates and to std; their contracts are believed, and
their doc comments say what is claimed: reading, writing and converting JSON (`json`),
decoding UTF-8 with replacement (`sse`), random identifiers (`wire`) and upper case
(`config`).
