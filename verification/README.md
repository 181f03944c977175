# op_driver

Drives the async ops of a JavaScript runtime: submits their futures, delivers their results, and
keeps the frames, contexts and state of ops. The library in `src/` is verified with Verus.

- `submission_queue`: a queue of futures that accepts submissions while it is being polled. While
  something calls into the collection of futures, what is submitted is buffered, and joins the
  collection with the next poll; a task that polls in that time is woken when the poll that has the
  collection makes progress.
- `driver`: ops on such a queue over the `FuturesUnordered` of the `futures` crate. Values and
  errors of ops are kept by the embedder, and the driver carries their keys.
- `op_stack`: which ops run on a thread, and which of them may invoke others.
- `op_ctx`, `op_decl`: what the engine is handed of an op.
- `op_state`: the state that ops share, and the count of outside operations.
- `queue_laws`, `driver_laws`, `driver_history`, `op_laws`: what holds over several calls.

`app/` is ordinary Rust around the library: handles that ops can reach while they are polled,
thread-local op frames, a counter that threads share, and the addresses that the engine is given.
`tests/` runs the library with the real outside crates.
