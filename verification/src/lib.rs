//! A checkpoint-based block verifier: admits blocks to a chain by proving
//! that each one belongs to a predeclared, trusted chain of checkpoint
//! hashes, before any expensive cryptographic verification runs.
//!
//! Blocks may arrive in any order, with gaps, duplicates, wrong heights or
//! bad hashes. Each submission is answered through a one-shot completion
//! handle, modelled here as a plain identifier: the verifier returns, for
//! every operation, the list of handles it resolved and how. An async
//! front end can map those identifiers to whatever one-shot primitive it
//! uses, while all ordering and gating decisions stay verified.

pub mod block;
pub mod checkpoint;
pub mod checkpoint_list;
pub mod error;
pub mod opcodes;
pub mod parameters;
pub mod queue;
pub mod transaction;
pub mod types;
