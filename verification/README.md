# anderson

An agent harness built on reference-monitor principles. A language model
proposes actions; a small monitor decides on each of them from a capability
bundle and from the provenance of what the model cites as its justification.
The harness, not the model, decides what executes.

The library under `src/` is written in Verus: its functions state what they
return and change, and the properties that span functions are proved as laws.
Of the clocks, the model and the tools nothing is assumed beyond a history: what
they were asked, and what they answered or showed.

- A call of a class that requires user intent is allowed only if it cites at
  least one chunk and every cited chunk carries the authority of the operator.
  Nothing that arrives during a run can lend that authority.
- Only the monitor makes the permissions that an executor accepts.
- Tool calls, model steps, denials in a row and response sizes are bounded by
  the bundle. The clock is read before every step of the model, and a run halts
  at the first reading above its wall-clock limit.
- Every call that the model proposes is recorded once with the decision on it,
  the calls that are executed are those recorded as allowed, and the model is
  told of every denial, every escalation and every new chunk.
- The record, and the end of every session, stand in a hash-chained log. Editing
  an entry breaks the chain unless it collides SHA-256.
- Files are reached by plain names only, from the root of a grant or, for a file
  that is granted by itself and read, from the directory that holds it. Programs
  run only inside the sandbox of the platform.

`app/` is the program around the library: the command line, files, network,
processes, and the client of the chat API.

```sh
anderson benign
anderson injection
anderson openai "your prompt here"
```

`tests/` runs the library on concrete values.
