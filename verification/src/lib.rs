//! A resumable frame decoder for a header-delimited message protocol.
//!
//! A frame is a bounded, order-independent repetition of header lines,
//! a blank separator line, and (optionally) a body terminated by the same
//! line ending. Input may arrive in arbitrary chunks; the decoder suspends
//! instead of failing when bytes are merely missing, and resumes exactly
//! where it left off when more bytes are appended.

pub mod accumulator;
pub mod config;
pub mod engine;
pub mod laws;
pub mod machine;
pub mod report;
