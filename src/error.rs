use crate::chunk_type::ChunkTypeError;
use crate::png::PngError;
use vstd::prelude::*;

verus! {

/// Why hiding, finding or removing a message failed.
#[derive(Debug, PartialEq, Eq, Structural)]
pub enum PngMeError {
    /// The file is not a well-formed PNG, or holds no chunk of the type asked for.
    Png(PngError),
    /// The chunk type given is not a legal type code.
    ChunkType(ChunkTypeError),
}

} // verus!
