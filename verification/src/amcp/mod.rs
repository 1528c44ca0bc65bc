//! AMCP — the CasparCG server's control protocol: building commands for the
//! wire, decoding the server's replies, and pairing requests with replies on
//! a connection.

pub mod client;
pub mod command;
pub mod commands;
pub mod response;
