//! Outputs of a recording session.
pub mod raw;
pub mod txt;
