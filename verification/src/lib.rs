//! Core of a TURN relay: the STUN/TURN message codec with integrity
//! checking, the channel-data codec, the relay state (nonces,
//! credentials, allocations, permissions, channel bindings) and the
//! request handlers with their demultiplexer.

pub mod addr;
pub mod attribute;
pub mod codec;
pub mod error;
pub mod kind;
pub mod laws;
pub mod relay;
pub mod state;
pub mod util;
