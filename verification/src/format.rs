//! The earlier recording writers.
pub mod asciicast;
