//! Deadlock-free, resumable communication with a child process.
//!
//! A parent that writes all of its input to a child before reading any of the
//! child's output can deadlock: the child blocks writing output into a full
//! pipe while the parent blocks writing input.  This crate holds the verified
//! core that avoids the hazard: the resumable read protocol that interleaves
//! admission of output chunks with input writing, bounds how many bytes one
//! call may capture, and never loses or duplicates a byte across calls.
//!
//! The operating-system work itself (polling descriptors, reading and writing
//! pipes, worker threads, channels) cannot be verified and stays outside this
//! crate; a thin runtime drives the protocol by handing it the events those
//! sources produce, as [`msg::Message`] values, and performs the bounded
//! writes and reads that the protocol asks for.

pub mod comm;
pub mod laws;
pub mod model;
pub mod msg;
pub mod readiness;
