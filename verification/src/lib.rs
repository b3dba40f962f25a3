//! A compiler for a modular audio-synthesis description language.
//!
//! Callers build an expression tree of unit generators (`sc3::Ugen`), the
//! multi-channel expansion engine normalizes it, the graph compiler turns it
//! into a deduplicated node graph, and the encoders serialize the graph into
//! the binary synth-definition format and the typed-message wire format.
//!
//! Floating-point constants are carried throughout as their IEEE-754 bit
//! patterns (`u32`), so every transformation and encoder is an exact function
//! over integers.

pub mod graph;
pub mod graphdef;
pub mod mce;
pub mod numbits;
pub mod osc;
pub mod sc3;
pub mod ugens;

pub use sc3::IConst;
pub use sc3::Rate;
pub use sc3::Ugen;
