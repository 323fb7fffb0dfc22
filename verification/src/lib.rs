//! Verified core of an RCON command-line client.
//!
//! The crate holds the three parts of the tool with real correctness
//! hazards: the wire codec for size-prefixed packets (`codec`), the
//! session state machine that performs the authentication handshake and
//! serializes command execution (`session`), and the store of saved
//! server profiles with its uniqueness and default-selection invariants
//! (`store`).  Networking, persistence and presentation sit outside the
//! crate and talk to these modules through plain values.

pub mod codec;
pub mod session;
pub mod store;
