//! Hiding messages inside PNG files as extra chunks: chunk type codes,
//! checksummed chunks, and the chunk container behind the PNG signature.

pub mod chunk;
pub mod chunk_type;
pub mod commands;
pub mod error;
pub mod png;
pub mod text;
