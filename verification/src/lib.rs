//! A broadcast relay for line-oriented text sessions: every message that
//! one registered session sends is delivered to every other one.
//!
//! This crate is the relay's logic, verified with Verus. It owns no socket
//! and starts no thread. Whoever runs it accepts the connections, reads and
//! writes the bytes, and asks the crate what to do with them:
//!
//! - [`arg_handling`] turns a command line into a configuration, or into
//!   the reason why there is none;
//! - [`session`] is one accepted connection with its identity and buffers;
//! - [`registry`] is the ordered collection of the sessions that are
//!   registered, each at most once;
//! - [`broadcast`] delivers a message to every session but its sender;
//! - [`worker`] says what a read means and what a worker does about it;
//! - [`engine`] holds the registry and assigns the session ids;
//! - [`history`] states what holds of an engine whatever happens to it;
//! - [`decimal`] reads the numbers of the command line.

pub mod arg_handling;
pub mod broadcast;
pub mod decimal;
pub mod engine;
pub mod history;
pub mod registry;
pub mod session;
pub mod worker;
