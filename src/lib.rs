//! State synchronisation between two participants over a datagram channel:
//! the text wire format of position and action records, and the session
//! state that publishes the local position, mirrors the remote one, keeps
//! the destination and paces the periodic steps.

pub mod codec;
pub mod number;
pub mod session;
