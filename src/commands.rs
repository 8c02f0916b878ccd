//! The edits behind the command-line tool, from the bytes of a PNG file to
//! the bytes to write back or the message found.

use crate::chunk::{chunk_model, Chunk, EncodingError};
use crate::chunk_type::{parse_type_code, ChunkTypeError};
use crate::png::{
    find_by_type, first_of_type, insert_before_last, parse_png, png_wire, Png, PngError, PngModel,
    RemoveError,
};
use vstd::prelude::*;
use vstd::string::StringSliceAdditionalSpecFns;
use vstd::utf8::{decode_utf8, valid_utf8};

verus! {

/// Why a command could not be carried out.
#[derive(Debug, Clone, Copy, PartialEq, Eq)]
pub enum CommandError {
    /// The file is not a PNG stream that can be read.
    Png(PngError),
    /// The type code given is not one.
    ChunkType(ChunkTypeError),
    /// The chunk to remove could not be removed.
    Remove(RemoveError),
    /// The message found is not valid UTF-8.
    Encoding(EncodingError),
}

/// Adds a chunk of type `chunk_type` holding `message` to the PNG stream in
/// `png`, just before its last chunk, and returns the new stream's bytes.
pub fn encode(png: &[u8], chunk_type: &str, message: &str) -> (r: Result<Vec<u8>, CommandError>)
    requires
        message.spec_bytes().len() <= u32::MAX,
    ensures
        match parse_png(png@) {
            Err(e) => r == Err::<Vec<u8>, CommandError>(CommandError::Png(e)),
            Ok(p) => match parse_type_code(chunk_type) {
                Err(e) => r == Err::<Vec<u8>, CommandError>(CommandError::ChunkType(e)),
                Ok(kind) => r matches Ok(out) && out@ == png_wire(
                    PngModel {
                        header: p.header,
                        chunks: insert_before_last(
                            p.chunks,
                            chunk_model(kind, message.spec_bytes()),
                        ),
                    },
                ),
            },
        },
{
    let mut image = match Png::try_from(png) {
        Ok(p) => p,
        Err(e) => return Err(CommandError::Png(e)),
    };
    let chunk = match Chunk::from_strings(chunk_type, message) {
        Ok(c) => c,
        Err(e) => return Err(CommandError::ChunkType(e)),
    };
    image.insert_chunk(chunk);
    Ok(image.as_bytes())
}

/// The message held by the first chunk of type `chunk_type` in the PNG
/// stream in `png`; nothing when no chunk has that type, or `chunk_type`
/// names no type code.
pub fn decode(png: &[u8], chunk_type: &str) -> (r: Result<Option<String>, CommandError>)
    ensures
        match parse_png(png@) {
            Err(e) => r == Err::<Option<String>, CommandError>(CommandError::Png(e)),
            Ok(p) => match find_by_type(p.chunks, chunk_type) {
                None => r == Ok::<Option<String>, CommandError>(None),
                Some(c) => if valid_utf8(c.data) {
                    r matches Ok(Some(s)) && s@ == decode_utf8(c.data)
                } else {
                    r == Err::<Option<String>, CommandError>(
                        CommandError::Encoding(EncodingError),
                    )
                },
            },
        },
{
    let image = match Png::try_from(png) {
        Ok(p) => p,
        Err(e) => return Err(CommandError::Png(e)),
    };
    match image.chunk_by_type(chunk_type) {
        Some(chunk) => match chunk.data_as_string() {
            Ok(s) => Ok(Some(s)),
            Err(e) => Err(CommandError::Encoding(e)),
        },
        None => Ok(None),
    }
}

/// Removes the first chunk of type `chunk_type` from the PNG stream in `png`
/// and returns the new stream's bytes.
pub fn remove(png: &[u8], chunk_type: &str) -> (r: Result<Vec<u8>, CommandError>)
    ensures
        match parse_png(png@) {
            Err(e) => r == Err::<Vec<u8>, CommandError>(CommandError::Png(e)),
            Ok(p) => match parse_type_code(chunk_type) {
                Err(e) => r == Err::<Vec<u8>, CommandError>(
                    CommandError::Remove(RemoveError::BadTypeQuery(e)),
                ),
                Ok(kind) => match first_of_type(p.chunks, kind) {
                    None => r == Err::<Vec<u8>, CommandError>(
                        CommandError::Remove(RemoveError::NotFound),
                    ),
                    Some(i) => r matches Ok(out) && out@ == png_wire(
                        PngModel { header: p.header, chunks: p.chunks.remove(i) },
                    ),
                },
            },
        },
{
    let mut image = match Png::try_from(png) {
        Ok(p) => p,
        Err(e) => return Err(CommandError::Png(e)),
    };
    match image.remove_chunk(chunk_type) {
        Ok(_) => Ok(image.as_bytes()),
        Err(e) => Err(CommandError::Remove(e)),
    }
}

} // verus!
