//! The logic of the commands that concatenate, convert, list and print
//! recordings, and of the session command's preparations.
pub mod cat;
pub mod convert;
pub mod ls_frames;
pub mod cat_frames;
pub mod play;
pub mod session;
pub mod stream;
