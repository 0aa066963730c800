//! Packing values into bytes and unpacking them again, driven by format
//! strings in the style of Python's `struct` module.
//!
//! A format string starts with an optional byte-order mark (`<` little,
//! `>` big, `@` the machine's own; none means little-endian) followed by
//! one or more type specifiers. `[...; n]` repeats a group of specifiers
//! `n` times; whitespace between tokens is ignored.
pub mod codec;
pub mod format;
pub mod laws;
pub mod native;
pub mod pack;
pub mod size;
pub mod traits;
pub mod tuples;
pub mod unpack;
pub mod value;

pub use format::{fmt_pack, fmt_unpack, parse_format, ByteOrder, FmtType, Format, FormatError, Mode, Prim};
pub use native::{is_little_endian, native_is_little_endian};
pub use pack::{pack, pack_with, PackError};
pub use size::unpack_size;
pub use traits::{Pack, Unpack};
pub use unpack::{unpack, unpack_with};
pub use value::{UnpackError, Value};
