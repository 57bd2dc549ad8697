//! Same-host publish/subscribe bus primitives: slot-identity naming for the
//! local socket mesh, an event-multiplexer registration and dispatch model,
//! node lifecycle decisions, and a shared ring segment with a
//! single-writer/multi-reader commit protocol over an explicit byte layout.
pub mod bytes;
pub mod checksum;
pub mod errors;
pub mod mux;
pub mod naming;
pub mod node;
pub mod segment;
pub mod signal;
