//! A line-oriented serial console: an editable command line of fixed capacity,
//! a bounded history of submitted lines, the engine that turns raw input bytes
//! into edits and rendered output, and the blocking byte-stream protocol that
//! carries that output to a duplex byte channel.
//!
//! The crate performs no I/O. The engine answers each input byte with the bytes
//! to render, and the transmit protocol answers each status of the channel with
//! the next thing to do; the caller moves the bytes.

pub mod engine;
pub mod history;
pub mod line_buffer;
pub mod transport;
