# agent_resume

Checkpoint and resume long-running jobs, verified with Verus.

A job wraps its work items in a `Resumable` on a store. For each item that
`next_item` gives out, it does its work and calls `checkpoint`, which appends a
row to the store. Where the process dies, a new `Resumable` on the same store
skips what was completed. Items are at-least-once: one that was not checkpointed
is given out again.

- `src/` is the library. `resumable.rs` holds the cursor, `checkpoint.rs` the
  rows, `store.rs` the contract of a store and a store in memory, `jsonl.rs` what
  the bytes of a JSONL file mean. `laws.rs` and `durable.rs` prove what holds
  across calls, crashes and restarts. `json.rs`, `clock.rs` and `text.rs` state
  what is taken from `serde_json` and the standard library without proof.
- `app/` puts the JSONL store on disk, and shares a store between threads.
- `tests/` runs the library.

Completion is tracked by the compact JSON text of an item's key. Floats are the
one thing that may not survive a file: a float in a row comes back as whatever its
decimal text reads as. Whole numbers below 2 to the power 49 do survive.
