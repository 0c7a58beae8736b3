//! Encoders that turn a recording into another format.
pub mod asciicast;
pub mod raw;
pub mod txt;
