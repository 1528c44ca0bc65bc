//! caspar-AV: drive a CasparCG server over AMCP, mirror its OSC telemetry, and
//! compile a show of screens and cues down to protocol commands.

pub mod amcp;
pub mod bridge;
pub mod control;
pub mod osc;
pub mod scanner;
pub mod show;
pub mod text;
