# omp-headless

A headless coding agent whose decisions are verified with Verus.

- `src/` is the library: everything that decides or computes, as functions from
  values to values, each with a contract, and the laws that hold of them together
  (public proof functions whose names begin with `law_`).
- `app/` is the program: standard input and output, HTTP, files, clocks, and the
  JSON names of the library's types.
- `tests/` runs the library on examples.

The library talks to a model that streams its responses (`sse`, `builder`,
`stream_runner`), runs the tools that the model calls (`execute`, `agent_loop`), keeps
the conversation in a journal (`writer`, `loader`, `context`), and serves sessions to
clients of the Agent Client Protocol (`mapping`, `server`).
