//! Core of a line-oriented, in-memory chat server.
//!
//! The library holds everything that can be stated and proved: the shared
//! state store (users, connections, channels, per-channel message logs), the
//! command protocol, channel membership, and message routing.  The network
//! edge (sockets, the accept loop, the per-session read/write loops) lives
//! outside the library and drives it with plain strings and integers.

pub mod laws;
pub mod protocol;
pub mod session;
pub mod store;
pub mod text;
