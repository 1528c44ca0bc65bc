//! CasparCG telemetry: an OSC decoder, the state of every reported key with
//! its expiry, the raw tree built from it, and the typed digest the console
//! renders.

pub mod decode;
pub mod digest;
pub mod state;
pub mod tree;
