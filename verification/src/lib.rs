//! Casting Plex media to a MiSTer FPGA over the Groovy protocol.

pub mod auth;
pub mod bytes;
pub mod cli;
pub mod config;
pub mod connection;
pub mod decimals;
pub mod double;
pub mod ffmpeg;
pub mod groovy;
pub mod language;
pub mod lz4;
pub mod mock_server;
pub mod plex;
pub mod streamer;
pub mod test_pattern;
pub mod text;
pub mod xml;
