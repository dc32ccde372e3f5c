//! Checkpoint and resume long-running jobs.
//!
//! Crash on item 47? Resume from item 48 next run. A job wraps its work items in a
//! [`Resumable`], does its work on each item that `next_item` gives it, and then
//! calls `checkpoint`, which appends a [`Checkpoint`] to a store. A new
//! `Resumable` on the same store skips everything that was completed.
//!
//! Items are **at-least-once**: where the process dies before `checkpoint` is
//! called, the item is given out again after the restart.
//!
//! - [`resumable`]: the cursor over the work items.
//! - [`checkpoint`]: the rows of a store.
//! - [`store`]: the contract of a store, and a store in memory.
//! - [`jsonl`]: a store in a file, as far as the bytes of the file are concerned.
//! - [`laws`] and [`durable`]: what holds across calls, crashes and restarts.
//! - [`reading`]: what holds of the reading of a file.
//! - [`calls`] and [`file_calls`]: what the calls do, and how they relate.
//! - [`json`], [`clock`], [`text`]: what the rest takes from `serde_json` and the
//!   standard library.
pub mod calls;
pub mod checkpoint;
pub mod clock;
pub mod durable;
pub mod error;
pub mod file_calls;
pub mod json;
pub mod jsonl;
pub mod laws;
pub mod reading;
pub mod resumable;
pub mod store;
pub mod text;

pub use crate::checkpoint::Checkpoint;
pub use crate::error::ResumeError;
pub use crate::jsonl::{JsonlFile, JsonlStore};
pub use crate::resumable::{ItemKeyFn, Resumable};
pub use crate::store::{InMemoryStore, Sink};
