//! Bounded, time-ordered logging of utility-meter measurements.
//!
//! The crate keeps a fixed-size window of measurements in memory, merges
//! manually entered corrections into it and decides which of the oldest
//! entries are handed to durable storage.
//!
//! * [`ringbuffer`] is the fixed-capacity circular buffer that holds the
//!   window.
//! * [`store`] takes automated readings into the window and flushes its
//!   oldest rows.
//! * [`merge`] places manual inputs in the window.
//! * [`p1_meter`] reads the datagrams of the electricity meter.
//! * [`sqlite`] and [`text`] read the answers of the storage tool.
//! * [`data`] is the row that all of them share.
//!
//! Functions state what they do in `requires` and `ensures` clauses over the
//! sequence of elements that a buffer holds, and Verus proves them. The
//! proof functions named `lemma_*` state what holds across calls. Two things
//! are believed and not proved: what the system clock reads, of which
//! nothing is claimed, and which moment chrono makes of a date and a time of
//! day, which the library knows by a name only.

#![allow(unused_imports)]

pub mod data;
pub mod merge;
pub mod p1_meter;
pub mod ringbuffer;
pub mod sqlite;
pub mod store;
pub mod text;
