//! Hex dump building blocks: a byte stream is cut into fixed-width rows, and
//! each row is rendered in a numeric base next to an ASCII sidebar, or as a
//! source-code array literal.

pub mod codec;
pub mod error;
pub mod format;
pub mod page;
pub mod render;
pub mod runner;
pub mod text;
pub mod wave;

pub use crate::codec::{
    hex_binary, hex_lower_hex, hex_octal, hex_upper_hex, offset, print_byte, print_offset,
};
pub use crate::error::Error;
pub use crate::format::{ArrayFormat, Format};
pub use crate::page::{buf_to_array, Line, Page};
pub use crate::render::{render_array, render_dump};
pub use crate::runner::{colorize_from_flag, run, run_read, Config};
pub use crate::wave::wave_separator;
