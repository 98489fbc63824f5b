# candle_memory

The verified core of a cognitive memory store, written in Verus.

- `src/` is the library: memory kinds and their names, memory records and
  their entity forms, version histories, procedures and their JSON forms,
  the cognitive task queue, relationship graphs, an indexed memory
  repository, episodic timelines, the steps of adding a memory with
  deduplication by content and of entanglement discovery, and the query,
  retrieval and retry rules of the storage layer. Its own functions
  carry contracts that Verus proves. Calls into `chrono`, `uuid`, `base64`, `serde_json`,
  `crossbeam-skiplist` and a few std functions stand behind small wrappers
  marked `#[verifier::external_body]`: their contracts, which say what
  those crates do, are trusted rather than proved.
- `tests/` runs the library on concrete values.
- `app/` holds what the library leaves to its callers: serde forms of its
  records, the floating-point scoring and decay rules, and the async
  plumbing of the task queue, of adding a memory and of the retry and
  polling loops.
