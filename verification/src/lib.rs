//! Verified core of a sandbox launcher: path syntax, overlay change
//! classification, the change summary, and the sandbox argument list.
pub mod paths;
pub mod overlay;
pub mod sandbox;
pub mod diff;
pub mod session;
pub mod sandbox_laws;
