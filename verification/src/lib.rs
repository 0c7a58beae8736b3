//! asciinema: terminal session recording, streaming and playback.
//!
//! This crate holds the verified core: the asciicast and ALiS encodings, the
//! terminal reply parser, frame selection and the other decision logic.
pub mod util;
pub mod leb128;
pub mod text;
pub mod json;
pub mod html;
pub mod hash;
pub mod tty;
pub mod stream;
pub mod alis;
pub mod streamer;
pub mod asciicast;
pub mod encoder;
pub mod cli;
pub mod frames;
pub mod cmd;
pub mod api;
pub mod config;
pub mod notifier;
pub mod logger;
pub mod output;
pub mod pty;
pub mod player;
pub mod session;
pub mod forwarder;
pub mod server;
pub mod urls;
pub mod locale;
pub mod format;
pub mod file_writer;
