use crate::chunk::Chunk;
use crate::chunk_type::{parse_type_code, ChunkType};
use crate::error::PngMeError;
use crate::png::{file_bytes, first_of_type, has_type, parse_png, Png};
use vstd::prelude::*;
use vstd::string::StringSliceAdditionalSpecFns;

verus! {

fn str_to_vec(s: &str) -> (r: Vec<u8>)
    ensures
        r@ == s.spec_bytes(),
{
    let b = s.as_bytes();
    let mut v: Vec<u8> = Vec::new();
    let mut i: usize = 0;
    while i < b.len()
        invariant
            0 <= i <= b@.len(),
            v@ == b@.subrange(0, i as int),
        decreases b@.len() - i,
    {
        v.push(b[i]);
        i = i + 1;
        assert(v@ =~= b@.subrange(0, i as int));
    }
    assert(b@.subrange(0, b@.len() as int) =~= b@);
    v
}

/// Hides `message` in a new chunk of type `chunk_type` at the end of the PNG
/// file `png_bytes`, and gives the bytes of the file that results.
pub fn encode_bytes(png_bytes: &[u8], chunk_type: &str, message: &str) -> (r: Result<
    Vec<u8>,
    PngMeError,
>)
    requires
        message.spec_bytes().len() <= u32::MAX,
    ensures
        match (parse_png(png_bytes@), parse_type_code(chunk_type.spec_bytes())) {
            (Err(e), _) => r == Err::<Vec<u8>, PngMeError>(PngMeError::Png(e)),
            (Ok(_), Err(e)) => r == Err::<Vec<u8>, PngMeError>(PngMeError::ChunkType(e)),
            (Ok(cs), Ok(t)) => r matches Ok(out) && out@ == file_bytes(
                cs.push((t, message.spec_bytes())),
            ),
        },
{
    let mut png = match Png::parse(png_bytes) {
        Ok(p) => p,
        Err(e) => {
            return Err(PngMeError::Png(e));
        },
    };
    let t = match ChunkType::from_text(chunk_type) {
        Ok(t) => t,
        Err(e) => {
            return Err(PngMeError::ChunkType(e));
        },
    };
    let chunk = Chunk::new(t, str_to_vec(message));
    png.append_chunk(chunk);
    Ok(png.as_bytes())
}

/// The first chunk of type `chunk_type` in the PNG file `png_bytes`, if any.
pub fn find_chunk(png_bytes: &[u8], chunk_type: &str) -> (r: Result<Option<Chunk>, PngMeError>)
    ensures
        match parse_png(png_bytes@) {
            Err(e) => r == Err::<Option<Chunk>, PngMeError>(PngMeError::Png(e)),
            Ok(cs) => r matches Ok(found) && (found is None <==> !has_type(
                cs,
                chunk_type.spec_bytes(),
            )) && (found matches Some(c) ==> exists|i: int|
                first_of_type(cs, chunk_type.spec_bytes(), i) && c@ == #[trigger] cs[i]),
        },
{
    let mut png = match Png::parse(png_bytes) {
        Ok(p) => p,
        Err(e) => {
            return Err(PngMeError::Png(e));
        },
    };
    match png.remove_first_chunk(chunk_type) {
        Ok(c) => Ok(Some(c)),
        Err(_) => Ok(None),
    }
}

/// Takes the first chunk of type `chunk_type` out of the PNG file
/// `png_bytes`, and gives the bytes of the file that results.
pub fn remove_bytes(png_bytes: &[u8], chunk_type: &str) -> (r: Result<Vec<u8>, PngMeError>)
    ensures
        match parse_png(png_bytes@) {
            Err(e) => r == Err::<Vec<u8>, PngMeError>(PngMeError::Png(e)),
            Ok(cs) => if has_type(cs, chunk_type.spec_bytes()) {
                r matches Ok(out) && exists|i: int|
                    first_of_type(cs, chunk_type.spec_bytes(), i) && out@ == file_bytes(
                        #[trigger] cs.remove(i),
                    )
            } else {
                r == Err::<Vec<u8>, PngMeError>(
                    PngMeError::Png(crate::png::PngError::ChunkNotFound),
                )
            },
        },
{
    let mut png = match Png::parse(png_bytes) {
        Ok(p) => p,
        Err(e) => {
            return Err(PngMeError::Png(e));
        },
    };
    match png.remove_first_chunk(chunk_type) {
        Ok(_) => Ok(png.as_bytes()),
        Err(e) => Err(PngMeError::Png(e)),
    }
}

} // verus!
