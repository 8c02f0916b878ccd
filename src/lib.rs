//! Reading, editing and writing the chunk stream of a PNG file.
//!
//! A PNG file is an eight-byte signature followed by chunks, each of them
//! `length ‖ type ‖ data ‖ crc`. This crate parses such a stream into a
//! [`Png`], lets a caller add and remove chunks, and writes it back; every
//! step is specified over the byte sequences involved and proved by Verus.

pub mod chunk;
pub mod chunk_type;
pub mod commands;
pub mod error;
pub mod png;
pub mod utils;

pub use chunk::{Chunk, ChunkError, EncodingError};
pub use chunk_type::{ChunkType, ChunkTypeError};
pub use commands::CommandError;
pub use error::Error;
pub use png::{Png, PngError, RemoveError};
