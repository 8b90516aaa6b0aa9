//! The core of a renderer that turns rhythm game charts into videos.
//!
//! What a rendering decides is decided here: how its options configure the player, which ffmpeg
//! and which encoder are used and with which arguments, how the sound is put together, in which
//! order pictures pass through the pixel buffers, and what is reported meanwhile. Files,
//! processes, graphics and real number arithmetic belong to the host.

pub mod arguments;
pub mod config;
pub mod encoder;
pub mod error;
pub mod ffmpeg;
pub mod mix;
pub mod player;
pub mod request;
pub mod schedule;
pub mod session;
pub mod text;
