//! Small helpers over byte buffers.
pub mod range;
pub mod string;
