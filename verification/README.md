# webcortex

A runtime for agentic web applications whose decisions are verified. A manifest declares
routes, agents, behaviours, flows and context providers; the runtime serves them over
HTTP, and every tool that a model may call is one of the application's own routes, let in
by the same rules as a request from outside.

## Layout

`src/` is the library, verified with Verus. It performs no I/O: it says what is to be done
next, and goes on with what came of it.

| modules | what they hold |
|---|---|
| `text`, `percent`, `table`, `json` | text, escapes, ordered tables and JSON values |
| `manifest`, `validation` | what an application declares, and whether it is sound |
| `http`, `pattern`, `router`, `middleware`, `server` | requests, routing, CORS, headers and the edge |
| `auth` | principals, API keys, tokens and delegation |
| `app`, `control`, `mcp`, `openapi` | dispatch, the control plane and tool discovery |
| `conversation`, `provider`, `registry`, `fake` | models, and how they are spoken to |
| `agent`, `run`, `runtime`, `approvals`, `session` | agent runs as a state machine |
| `behaviour`, `bridge`, `context`, `flow` | procedures and pipelines around the model |
| `budget`, `ledger`, `audit` | what is spent, and what is written down |
| `db`, `files`, `templates` | queries, files and pages |

Contracts speak of views: a `Json` is a `JsonView`, a table is a `Map`, a text is a
`Seq<char>`. What relates several functions is a `law_` proof function beside them.

Calls into other crates stand behind small wrappers, each with a doc comment that says what
is believed of the crate.

`tests/` runs the library with those crates linked. `app/` is ordinary Rust around it: the
sockets, the database, the clock, the templates and the interpreter.

## Environment

`WEBCORTEX_DEFAULT_MODEL` and `WEBCORTEX_FAST_MODEL` name the models behind the aliases
`default` and `fast`; `WEBCORTEX_LOG` says what is logged.
