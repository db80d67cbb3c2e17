//! Deterministic fixed-timestep multiplayer match core: simulation kernel,
//! input mediation, match orchestration, and replay record/verify.
//!
//! Every floating-point quantity (positions, velocities, movement intent) is
//! carried as its IEEE-754 binary64 bit pattern in a `u64`, so that state,
//! digests and wire bytes are bit-exact by construction.

pub mod codec;
pub mod digest;
pub mod fp;
pub mod input_buffer;
pub mod replay;
pub mod server;
pub mod session;
pub mod sim;
pub mod validation;
pub mod wire;
