//! Decoding of process signal masks.
//!
//! The kernel reports the signals that a process catches, ignores, blocks and
//! has pending as hexadecimal bitmaps, most significant digit first, in which
//! bit `i` stands for signal number `i + 1`. This library turns such a bitmap
//! into the ascending list of signal numbers, reads the five bitmaps out of a
//! process status record, builds signal names from what the host's signal
//! enumeration utility prints, and parses the command line of the tool that
//! ties these together.

pub mod bits;
pub mod cli;
pub mod error;
pub mod mask;
pub mod namer;
pub mod report;
pub mod status;
pub mod text;
pub mod theorems;
