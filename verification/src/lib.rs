//! The in-memory storage of a DAG-based memory pool: the committee of
//! each round, the certified batches, and the transmissions that the
//! batches carry.
//!
//! [`storage::Storage`] keeps five indices that agree with one another,
//! decides whether a batch header or a batch certificate may enter, and
//! collects the rounds that fall out of the retention window. Its state,
//! its invariant and the effect of each operation are defined in
//! [`model`]; [`laws`] states what follows from them, and
//! [`preservation`] proves that every operation keeps the invariant.
//!
//! # Conventions
//!
//! - Certificate ids, batch ids, addresses and transmission ids are 64-bit
//!   handles. Whoever holds the cryptographic values gives each of them a
//!   handle of its own.
//! - The storage reads no clock. A caller passes the window of timestamps
//!   that count as live, see [`liveness::LivenessWindow`].
//! - The storage is a plain value. Sharing it among threads is the
//!   caller's business: every operation that changes it takes `&mut self`,
//!   so one lock around the storage serialises them.
//! - Every index iterates in insertion order; removing an entry keeps the
//!   order of the others.
//!
//! # Trust
//!
//! The indices are `IndexMap` and `IndexSet` of the `indexmap` crate.
//! What their methods do is stated, not proved, in [`index`]; everything
//! else is proved from those statements.
pub mod committee;
pub mod error;
pub mod index;
pub mod laws;
pub mod liveness;
pub mod model;
pub mod ordered;
pub mod preservation;
pub mod storage;
pub mod types;
