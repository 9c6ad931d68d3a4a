use crate::chunk::{
    be_bytes, be_value, chunk_ok, frame_bytes, lemma_be_round_trip, lemma_chunk_round_trip,
    parse_frame, push_all, read_be_u32, summary_bytes, Chunk, ChunkModel, ChunkParserError,
};
use crate::text::string_from_utf8;
use vstd::prelude::*;
use vstd::string::StringSliceAdditionalSpecFns;
use vstd::utf8::{decode_utf8, encode_utf8_valid_utf8, valid_utf8, valid_utf8_concat};

verus! {

/// The eight bytes that open every PNG file.
pub open spec fn png_signature() -> Seq<u8> {
    seq![0x89u8, 0x50u8, 0x4Eu8, 0x47u8, 0x0Du8, 0x0Au8, 0x1Au8, 0x0Au8]
}

/// The wire forms of the chunks, one after another.
pub open spec fn frames(cs: Seq<ChunkModel>) -> Seq<u8>
    decreases cs.len(),
{
    if cs.len() == 0 {
        Seq::empty()
    } else {
        frame_bytes(cs[0]) + frames(cs.drop_first())
    }
}

/// The bytes of a PNG file holding the chunks.
pub open spec fn file_bytes(cs: Seq<ChunkModel>) -> Seq<u8> {
    png_signature() + frames(cs)
}

/// Why bytes are not a PNG file, or why an edit could not be made.
#[derive(Debug, PartialEq, Eq, Structural)]
pub enum PngError {
    /// The first eight bytes are not the PNG signature.
    BadSignature,
    /// The chunk at `index` (counted from zero) is malformed.
    ChunkParseFailed { index: usize, cause: ChunkParserError },
    /// No chunk has the type asked for.
    ChunkNotFound,
}

/// How many bytes the next frame takes: twelve plus its length field, or all
/// that is left where that is fewer.
pub open spec fn frame_span(rest: Seq<u8>) -> int {
    if rest.len() < 12 {
        rest.len() as int
    } else if 12 + be_value(rest) <= rest.len() {
        12 + be_value(rest)
    } else {
        rest.len() as int
    }
}

/// The chunks that the bytes after the signature hold, the first of them
/// numbered `index`.
pub open spec fn parse_chunks(rest: Seq<u8>, index: int) -> Result<Seq<ChunkModel>, PngError>
    decreases rest.len(),
{
    if rest.len() == 0 {
        Ok(Seq::empty())
    } else {
        let span = frame_span(rest);
        match parse_frame(rest.subrange(0, span)) {
            Err(e) => Err(PngError::ChunkParseFailed { index: index as usize, cause: e }),
            Ok(c) => match parse_chunks(rest.subrange(span, rest.len() as int), index + 1) {
                Ok(cs) => Ok(seq![c] + cs),
                Err(e) => Err(e),
            },
        }
    }
}

/// The chunks that a whole PNG file holds.
pub open spec fn parse_png(b: Seq<u8>) -> Result<Seq<ChunkModel>, PngError> {
    if b.len() < 8 || b.subrange(0, 8) != png_signature() {
        Err(PngError::BadSignature)
    } else {
        parse_chunks(b.subrange(8, b.len() as int), 0)
    }
}

/// Chunks already read, put before the outcome of reading the rest.
pub open spec fn prepend(
    done: Seq<ChunkModel>,
    r: Result<Seq<ChunkModel>, PngError>,
) -> Result<Seq<ChunkModel>, PngError> {
    match r {
        Ok(cs) => Ok(done + cs),
        Err(e) => Err(e),
    }
}

/// `i` is the position of the first chunk whose type code is `name`.
pub open spec fn first_of_type(cs: Seq<ChunkModel>, name: Seq<u8>, i: int) -> bool {
    &&& 0 <= i < cs.len()
    &&& cs[i].0 == name
    &&& forall|j: int| 0 <= j < i ==> cs[j].0 != name
}

/// Some chunk has the type code `name`.
pub open spec fn has_type(cs: Seq<ChunkModel>, name: Seq<u8>) -> bool {
    exists|i: int| 0 <= i < cs.len() && cs[i].0 == name
}

/// One description line per chunk, in order.
pub open spec fn summary_lines(cs: Seq<ChunkModel>) -> Seq<u8>
    decreases cs.len(),
{
    if cs.len() == 0 {
        Seq::empty()
    } else {
        summary_lines(cs.drop_last()) + summary_bytes(cs.last()) + "\n".spec_bytes()
    }
}

/// The description of a PNG file: a heading, then one line per chunk.
pub open spec fn png_summary(cs: Seq<ChunkModel>) -> Seq<u8> {
    "PNG signature 89 50 4E 47 0D 0A 1A 0A\n".spec_bytes() + summary_lines(cs)
}

/// A PNG file as its signature and an ordered sequence of chunks.
#[derive(Debug)]
pub struct Png {
    chunks: Vec<Chunk>,
}

impl View for Png {
    type V = Seq<ChunkModel>;

    closed spec fn view(&self) -> Seq<ChunkModel> {
        self.chunks@.map_values(|c: Chunk| c@)
    }
}

fn has_signature(b: &[u8]) -> (r: bool)
    requires
        b@.len() >= 8,
    ensures
        r == (b@.subrange(0, 8) == png_signature()),
{
    let r = b[0] == 0x89 && b[1] == 0x50 && b[2] == 0x4E && b[3] == 0x47 && b[4] == 0x0D && b[5]
        == 0x0A && b[6] == 0x1A && b[7] == 0x0A;
    proof {
        let s = b@.subrange(0, 8);
        if r {
            assert(s =~= png_signature());
        } else if s == png_signature() {
            assert(s[0] == png_signature()[0] && s[1] == png_signature()[1] && s[2]
                == png_signature()[2] && s[3] == png_signature()[3] && s[4] == png_signature()[4]
                && s[5] == png_signature()[5] && s[6] == png_signature()[6] && s[7]
                == png_signature()[7]);
        }
    }
    r
}

fn same_code(code: [u8; 4], name: &[u8]) -> (r: bool)
    ensures
        r == (code@ == name@),
{
    if name.len() != 4 {
        return false;
    }
    let r = code[0] == name[0] && code[1] == name[1] && code[2] == name[2] && code[3] == name[3];
    proof {
        if r {
            assert(code@ =~= name@);
        } else if code@ == name@ {
            assert(code@[0] == name@[0] && code@[1] == name@[1] && code@[2] == name@[2] && code@[3]
                == name@[3]);
        }
    }
    r
}

proof fn lemma_frames_push(cs: Seq<ChunkModel>, c: ChunkModel)
    ensures
        frames(cs.push(c)) == frames(cs) + frame_bytes(c),
    decreases cs.len(),
{
    if cs.len() == 0 {
        assert(cs.push(c).drop_first() =~= Seq::<ChunkModel>::empty());
        assert(frames(cs.push(c).drop_first()) =~= Seq::<u8>::empty());
        assert(frames(cs) =~= Seq::<u8>::empty());
        assert(frames(cs.push(c)) =~= frame_bytes(c));
    } else {
        assert(cs.push(c).drop_first() =~= cs.drop_first().push(c));
        lemma_frames_push(cs.drop_first(), c);
        assert(frames(cs.push(c)) =~= frames(cs) + frame_bytes(c));
    }
}

proof fn lemma_first_frame(c: ChunkModel, tail: Seq<u8>)
    requires
        chunk_ok(c),
    ensures
        frame_span(frame_bytes(c) + tail) == frame_bytes(c).len(),
        (frame_bytes(c) + tail).subrange(0, frame_bytes(c).len() as int) == frame_bytes(c),
        (frame_bytes(c) + tail).subrange(
            frame_bytes(c).len() as int,
            (frame_bytes(c) + tail).len() as int,
        ) == tail,
{
    let f = frame_bytes(c);
    let rest = f + tail;
    let l = c.1.len() as u32;
    lemma_be_round_trip(l);
    assert(rest[0] == be_bytes(l)[0] && rest[1] == be_bytes(l)[1] && rest[2] == be_bytes(l)[2]
        && rest[3] == be_bytes(l)[3]);
    assert(be_value(rest) == be_value(be_bytes(l)));
    assert(rest.subrange(0, f.len() as int) =~= f);
    assert(rest.subrange(f.len() as int, rest.len() as int) =~= tail);
}

proof fn lemma_parse_frames(cs: Seq<ChunkModel>, index: int)
    requires
        forall|i: int| 0 <= i < cs.len() ==> chunk_ok(#[trigger] cs[i]),
    ensures
        parse_chunks(frames(cs), index) == Ok::<Seq<ChunkModel>, PngError>(cs),
    decreases cs.len(),
{
    if cs.len() == 0 {
        assert(frames(cs) =~= Seq::<u8>::empty());
        assert(cs =~= Seq::<ChunkModel>::empty());
    } else {
        let c = cs[0];
        let tail = cs.drop_first();
        assert(chunk_ok(c));
        assert(frames(cs) == frame_bytes(c) + frames(tail));
        lemma_first_frame(c, frames(tail));
        lemma_chunk_round_trip(c);
        lemma_parse_frames(tail, index + 1);
        assert(seq![c] + tail =~= cs);
    }
}

/// Reading the bytes of a PNG file gives back the chunks it was written from.
pub proof fn lemma_png_round_trip(cs: Seq<ChunkModel>)
    requires
        forall|i: int| 0 <= i < cs.len() ==> chunk_ok(#[trigger] cs[i]),
    ensures
        parse_png(file_bytes(cs)) == Ok::<Seq<ChunkModel>, PngError>(cs),
{
    let b = file_bytes(cs);
    assert(b.subrange(0, 8) =~= png_signature());
    assert(b.subrange(8, b.len() as int) =~= frames(cs));
    lemma_parse_frames(cs, 0);
}

impl Png {
    /// The PNG signature.
    pub fn standard_header() -> (r: [u8; 8])
        ensures
            r@ == png_signature(),
    {
        let r: [u8; 8] = [0x89, 0x50, 0x4E, 0x47, 0x0D, 0x0A, 0x1A, 0x0A];
        assert(r@ =~= png_signature());
        r
    }

    /// A file holding the given chunks, in order.
    pub fn from_chunks(chunks: Vec<Chunk>) -> (r: Png)
        ensures
            r@ == chunks@.map_values(|c: Chunk| c@),
    {
        Png { chunks }
    }

    /// Reads a whole PNG file: the signature, then chunk after chunk until no
    /// bytes are left.
    pub fn parse(bytes: &[u8]) -> (r: Result<Png, PngError>)
        ensures
            r is Ok <==> parse_png(bytes@) is Ok,
            r matches Ok(p) ==> parse_png(bytes@) == Ok::<Seq<ChunkModel>, PngError>(p@),
            r matches Err(e) ==> parse_png(bytes@) == Err::<Seq<ChunkModel>, PngError>(e),
    {
        let n = bytes.len();
        if n < 8 || !has_signature(bytes) {
            return Err(PngError::BadSignature);
        }
        let ghost all = bytes@.subrange(8, n as int);
        assert(parse_png(bytes@) == parse_chunks(all, 0));
        let mut chunks: Vec<Chunk> = Vec::new();
        let mut pos: usize = 8;
        let mut index: usize = 0;
        assert(bytes@.subrange(pos as int, n as int) == all);
        assert(chunks@.map_values(|c: Chunk| c@) =~= Seq::<ChunkModel>::empty());
        while pos < n
            invariant
                8 <= pos <= n,
                n == bytes@.len(),
                index + 8 <= pos,
                all == bytes@.subrange(8, n as int),
                parse_png(bytes@) == parse_chunks(all, 0),
                parse_chunks(all, 0) == prepend(
                    chunks@.map_values(|c: Chunk| c@),
                    parse_chunks(bytes@.subrange(pos as int, n as int), index as int),
                ),
            decreases n - pos,
        {
            let ghost rest = bytes@.subrange(pos as int, n as int);
            let left = n - pos;
            let span: usize = if left < MIN_FRAME {
                left
            } else {
                let declared = read_be_u32(bytes, pos);
                assert(be_value(rest) == be_value(bytes@.subrange(pos as int, pos + 4)));
                if declared as usize <= left - MIN_FRAME {
                    MIN_FRAME + declared as usize
                } else {
                    left
                }
            };
            assert(span == frame_span(rest));
            let piece = vstd::slice::slice_subrange(bytes, pos, pos + span);
            assert(piece@ =~= rest.subrange(0, span as int));
            assert(bytes@.subrange((pos + span) as int, n as int) =~= rest.subrange(
                span as int,
                rest.len() as int,
            ));
            let ghost before = chunks@.map_values(|c: Chunk| c@);
            match Chunk::parse(piece) {
                Err(e) => {
                    assert(parse_chunks(rest, index as int) == Err::<Seq<ChunkModel>, PngError>(
                        PngError::ChunkParseFailed { index, cause: e },
                    ));
                    assert(parse_chunks(all, 0) == Err::<Seq<ChunkModel>, PngError>(
                        PngError::ChunkParseFailed { index, cause: e },
                    ));
                    return Err(PngError::ChunkParseFailed { index, cause: e });
                },
                Ok(c) => {
                    let ghost cv = c@;
                    chunks.push(c);
                    assert(chunks@.map_values(|c: Chunk| c@) =~= before.push(cv));
                    assert(before + seq![cv] =~= before.push(cv));
                    proof {
                        match parse_chunks(rest.subrange(span as int, rest.len() as int), index + 1) {
                            Ok(cs) => {
                                assert(before + (seq![cv] + cs) =~= before.push(cv) + cs);
                            },
                            Err(_) => {},
                        }
                    }
                },
            }
            pos = pos + span;
            index = index + 1;
        }
        assert(chunks@.map_values(|c: Chunk| c@) + Seq::<ChunkModel>::empty() =~= chunks@.map_values(
            |c: Chunk| c@,
        ));
        Ok(Png { chunks })
    }

    /// The bytes of the file: the signature, then each chunk's wire form in order.
    pub fn as_bytes(&self) -> (r: Vec<u8>)
        ensures
            r@ == file_bytes(self@),
            forall|i: int| 0 <= i < self@.len() ==> chunk_ok(#[trigger] self@[i]),
    {
        let header = Self::standard_header();
        let mut out: Vec<u8> = Vec::new();
        push_all(&mut out, header.as_slice());
        let mut i: usize = 0;
        while i < self.chunks.len()
            invariant
                0 <= i <= self.chunks@.len(),
                self@.len() == self.chunks@.len(),
                out@ == png_signature() + frames(self@.take(i as int)),
                forall|j: int| 0 <= j < i ==> chunk_ok(#[trigger] self@[j]),
            decreases self.chunks@.len() - i,
        {
            let frame = self.chunks[i].as_bytes();
            push_all(&mut out, frame.as_slice());
            proof {
                lemma_frames_push(self@.take(i as int), self@[i as int]);
                assert(self@.take(i as int).push(self@[i as int]) =~= self@.take(i + 1));
            }
            i = i + 1;
        }
        assert(self@.take(i as int) =~= self@);
        out
    }

    /// A description for people to read: a heading, then each chunk's line.
    pub fn to_string(&self) -> (r: String)
        ensures
            valid_utf8(png_summary(self@)),
            r@ == decode_utf8(png_summary(self@)),
    {
        broadcast use encode_utf8_valid_utf8, valid_utf8_concat;

        let mut out: Vec<u8> = Vec::new();
        push_all(&mut out, "PNG signature 89 50 4E 47 0D 0A 1A 0A\n".as_bytes());
        let mut i: usize = 0;
        while i < self.chunks.len()
            invariant
                0 <= i <= self.chunks@.len(),
                self@.len() == self.chunks@.len(),
                out@ == "PNG signature 89 50 4E 47 0D 0A 1A 0A\n".spec_bytes() + summary_lines(
                    self@.take(i as int),
                ),
                valid_utf8(out@),
            decreases self.chunks@.len() - i,
        {
            let line = self.chunks[i].to_string();
            let ghost before = out@;
            let ghost piece = summary_bytes(self@[i as int]);
            let bytes = line.as_str().as_bytes();
            proof {
                vstd::utf8::decode_utf8_encode_utf8(piece);
            }
            push_all(&mut out, bytes);
            push_all(&mut out, "\n".as_bytes());
            proof {
                assert(bytes@ == piece);
                valid_utf8_concat(before, piece);
                encode_utf8_valid_utf8("\n"@);
                valid_utf8_concat(before + piece, "\n".spec_bytes());
                let t = self@.take(i + 1);
                assert(t.drop_last() =~= self@.take(i as int));
                assert(out@ =~= "PNG signature 89 50 4E 47 0D 0A 1A 0A\n".spec_bytes() + summary_lines(t));
            }
            i = i + 1;
        }
        assert(self@.take(i as int) =~= self@);
        match string_from_utf8(out) {
            Ok(s) => s,
            Err(_) => String::new(),
        }
    }

    /// The chunks, in order.
    pub fn chunks(&self) -> (r: &[Chunk])
        ensures
            r@.map_values(|c: Chunk| c@) == self@,
    {
        self.chunks.as_slice()
    }

    /// Puts the chunk at the end of the file.
    pub fn append_chunk(&mut self, chunk: Chunk)
        ensures
            final(self)@ == old(self)@.push(chunk@),
    {
        self.chunks.push(chunk);
        assert(self@ =~= old(self)@.push(chunk@));
    }

    fn position_of(&self, name: &[u8]) -> (r: Option<usize>)
        ensures
            r matches Some(i) ==> first_of_type(self@, name@, i as int),
            r is None ==> !has_type(self@, name@),
    {
        let mut i: usize = 0;
        while i < self.chunks.len()
            invariant
                0 <= i <= self.chunks@.len(),
                self@.len() == self.chunks@.len(),
                forall|j: int| 0 <= j < i ==> self@[j].0 != name@,
            decreases self.chunks@.len() - i,
        {
            let code = self.chunks[i].chunk_type().bytes();
            if same_code(code, name) {
                return Some(i);
            }
            i = i + 1;
        }
        None
    }

    /// The first chunk whose type code is the text `chunk_type`, if any.
    pub fn chunk_by_type(&self, chunk_type: &str) -> (r: Option<&Chunk>)
        ensures
            r is None <==> !has_type(self@, chunk_type.spec_bytes()),
            r matches Some(c) ==> exists|i: int|
                first_of_type(self@, chunk_type.spec_bytes(), i) && c@ == #[trigger] self@[i],
    {
        let name = chunk_type.as_bytes();
        match self.position_of(name) {
            Some(i) => Some(&self.chunks[i]),
            None => None,
        }
    }

    /// Takes the first chunk whose type code is the text `chunk_type` out of
    /// the file, keeping the others in order.
    pub fn remove_first_chunk(&mut self, chunk_type: &str) -> (r: Result<Chunk, PngError>)
        ensures
            r is Err <==> !has_type(old(self)@, chunk_type.spec_bytes()),
            r matches Err(e) ==> e == PngError::ChunkNotFound && final(self)@ == old(self)@,
            r matches Ok(c) ==> exists|i: int|
                first_of_type(old(self)@, chunk_type.spec_bytes(), i) && c@ == #[trigger] old(
                    self,
                )@[i] && final(self)@ == old(self)@.remove(i),
    {
        let name = chunk_type.as_bytes();
        match self.position_of(name) {
            Some(i) => {
                let c = self.chunks.remove(i);
                assert(self@ =~= old(self)@.remove(i as int));
                Ok(c)
            },
            None => Err(PngError::ChunkNotFound),
        }
    }
}

/// Twelve bytes: the smallest frame.
const MIN_FRAME: usize = 12;

} // verus!
