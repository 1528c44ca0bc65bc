//! The show: screens, cues, and their compilation down to AMCP.

pub mod model;
pub mod compile;
pub mod edit;
