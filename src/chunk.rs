use crate::chunk_type::{all_letters, is_type_code, ChunkType, ChunkTypeError};
use crate::text::{
    ascii_bytes, decimal, lemma_ascii_decodes, push_aligned_decimal, right_aligned,
    string_from_utf8,
};
use vstd::prelude::*;
use vstd::string::StringSliceAdditionalSpecFns;
use vstd::utf8::{decode_utf8, encode_utf8_valid_utf8, valid_utf8, valid_utf8_concat};

verus! {

/// The smallest frame: length, type and checksum fields around an empty payload.
pub const MIN_CHUNK_SIZE: usize = 12;

/// The CRC-32 of a byte string (ISO-HDLC parameters: the IEEE polynomial,
/// reflected, initial value and final xor all ones).
pub uninterp spec fn crc32_iso_hdlc(bytes: Seq<u8>) -> u32;

/// Relies on the `crc` crate's `Crc::<u32>::checksum` with its
/// `CRC_32_ISO_HDLC` algorithm: the checksum of the bytes handed in.
#[verifier::external_body]
fn checksum(bytes: &[u8]) -> (r: u32)
    ensures
        r == crc32_iso_hdlc(bytes@),
{
    crc::Crc::<u32>::new(&crc::CRC_32_ISO_HDLC).checksum(bytes)
}

/// The four big-endian bytes of `n`.
pub open spec fn be_bytes(n: u32) -> Seq<u8> {
    seq![(n >> 24u32) as u8, (n >> 16u32) as u8, (n >> 8u32) as u8, n as u8]
}

/// The number that the first four bytes of `b` spell, big-endian.
pub open spec fn be_value(b: Seq<u8>) -> u32 {
    ((b[0] as u32) << 24u32) | ((b[1] as u32) << 16u32) | ((b[2] as u32) << 8u32) | (b[3] as u32)
}

/// Reading back the four big-endian bytes of a number gives the number.
pub proof fn lemma_be_round_trip(n: u32)
    ensures
        be_value(be_bytes(n)) == n,
{
    assert(((((n >> 24u32) as u8) as u32) << 24u32) | ((((n >> 16u32) as u8) as u32) << 16u32)
        | ((((n >> 8u32) as u8) as u32) << 8u32) | ((n as u8) as u32) == n) by (bit_vector);
}

/// A chunk as a value: its type code and its payload.
pub type ChunkModel = (Seq<u8>, Seq<u8>);

/// What a chunk may hold: a legal type code and a payload whose length fits
/// the 32-bit length field.
pub open spec fn chunk_ok(c: ChunkModel) -> bool {
    is_type_code(c.0) && c.1.len() <= u32::MAX
}

/// The checksum of a chunk: CRC-32 over its type code followed by its payload.
pub open spec fn chunk_crc(chunk_type: Seq<u8>, data: Seq<u8>) -> u32 {
    crc32_iso_hdlc(chunk_type + data)
}

/// The wire form of a chunk: length, type code, payload, checksum.
pub open spec fn frame_bytes(c: ChunkModel) -> Seq<u8> {
    be_bytes(c.1.len() as u32) + c.0 + c.1 + be_bytes(chunk_crc(c.0, c.1))
}

/// Why a byte string is not one chunk.
#[derive(Debug, PartialEq, Eq, Structural)]
pub enum ChunkParserError {
    /// Fewer bytes than the smallest frame.
    Incomplete,
    /// The length field disagrees with the number of payload bytes present.
    InvalidLengthField { expected: usize, found: u32 },
    /// The type code is not four ASCII letters.
    InvalidChunkType(ChunkTypeError),
    /// The stored checksum differs from the one computed.
    InvalidChecksum,
}

/// The outcome of reading `b` as exactly one chunk frame.
pub open spec fn parse_frame(b: Seq<u8>) -> Result<ChunkModel, ChunkParserError> {
    if b.len() < 12 {
        Err(ChunkParserError::Incomplete)
    } else if be_value(b) as int != b.len() - 12 {
        Err(ChunkParserError::InvalidLengthField { expected: (b.len() - 12) as usize, found: be_value(b) })
    } else if !all_letters(b.subrange(4, 8)) {
        Err(ChunkParserError::InvalidChunkType(ChunkTypeError::NotAsciiLetters))
    } else if be_value(b.subrange(b.len() - 4, b.len() as int)) != chunk_crc(
        b.subrange(4, 8),
        b.subrange(8, b.len() - 4),
    ) {
        Err(ChunkParserError::InvalidChecksum)
    } else {
        Ok((b.subrange(4, 8), b.subrange(8, b.len() - 4)))
    }
}

/// The payload as it is shown: itself where it is UTF-8 text, else a placeholder.
pub open spec fn shown_data(data: Seq<u8>) -> Seq<u8> {
    if valid_utf8(data) {
        data
    } else {
        "<Invalid UTF-8>".spec_bytes()
    }
}

/// The one-line description of a chunk: its length, type, payload and checksum.
pub open spec fn summary_bytes(c: ChunkModel) -> Seq<u8> {
    "{ length: ".spec_bytes() + right_aligned(decimal(c.1.len()), 4) + " type: ".spec_bytes() + c.0
        + ", data: ".spec_bytes() + shown_data(c.1) + ", crc ".spec_bytes() + right_aligned(
        decimal(chunk_crc(c.0, c.1) as nat),
        10,
    ) + " }".spec_bytes()
}

/// Why a payload could not be read as text.
#[derive(Debug, PartialEq, Eq, Structural)]
pub enum EncodingError {
    /// The payload is not well-formed UTF-8.
    InvalidEncoding,
}

/// One length-prefixed, checksummed unit of a PNG file.
#[derive(Debug)]
pub struct Chunk {
    data: Vec<u8>,
    chunk_type: ChunkType,
    crc: u32,
}

impl View for Chunk {
    type V = ChunkModel;

    closed spec fn view(&self) -> ChunkModel {
        (self.chunk_type@, self.data@)
    }
}

pub(crate) fn read_be_u32(b: &[u8], pos: usize) -> (r: u32)
    requires
        pos + 4 <= b@.len(),
    ensures
        r == be_value(b@.subrange(pos as int, pos + 4)),
{
    ((b[pos] as u32) << 24u32) | ((b[pos + 1] as u32) << 16u32) | ((b[pos + 2] as u32) << 8u32)
        | (b[pos + 3] as u32)
}

fn push_be_u32(out: &mut Vec<u8>, n: u32)
    ensures
        final(out)@ == old(out)@ + be_bytes(n),
{
    out.push((n >> 24u32) as u8);
    out.push((n >> 16u32) as u8);
    out.push((n >> 8u32) as u8);
    out.push(n as u8);
}

pub(crate) fn push_all(out: &mut Vec<u8>, b: &[u8])
    ensures
        final(out)@ == old(out)@ + b@,
{
    let ghost start = out@;
    let mut i: usize = 0;
    while i < b.len()
        invariant
            0 <= i <= b@.len(),
            out@ == start + b@.subrange(0, i as int),
        decreases b@.len() - i,
    {
        out.push(b[i]);
        i = i + 1;
        assert(out@ =~= start + b@.subrange(0, i as int));
    }
    assert(b@.subrange(0, b@.len() as int) =~= b@);
}

impl Chunk {
    #[verifier::type_invariant]
    spec fn consistent(&self) -> bool {
        &&& self.data@.len() <= u32::MAX
        &&& self.crc == chunk_crc(self.chunk_type@, self.data@)
    }

    /// A chunk of the given type and payload, with its checksum computed.
    pub fn new(chunk_type: ChunkType, data: Vec<u8>) -> (r: Chunk)
        requires
            data@.len() <= u32::MAX,
        ensures
            r@ == (chunk_type@, data@),
    {
        let tb = chunk_type.bytes();
        let mut covered: Vec<u8> = Vec::new();
        push_all(&mut covered, tb.as_slice());
        push_all(&mut covered, data.as_slice());
        let crc = checksum(covered.as_slice());
        Chunk { data, chunk_type, crc }
    }

    /// The number of payload bytes.
    pub fn length(&self) -> (r: u32)
        ensures
            r == self@.1.len(),
    {
        proof {
            use_type_invariant(self);
        }
        self.data.len() as u32
    }

    /// The chunk's type code.
    pub fn chunk_type(&self) -> (r: &ChunkType)
        ensures
            r@ == self@.0,
    {
        &self.chunk_type
    }

    /// The payload.
    pub fn data(&self) -> (r: &[u8])
        ensures
            r@ == self@.1,
    {
        self.data.as_slice()
    }

    /// The checksum over type code and payload.
    pub fn crc(&self) -> (r: u32)
        ensures
            r == chunk_crc(self@.0, self@.1),
    {
        proof {
            use_type_invariant(self);
        }
        self.crc
    }

    /// The payload read as UTF-8 text.
    pub fn data_as_string(&self) -> (r: Result<String, EncodingError>)
        ensures
            r is Ok <==> valid_utf8(self@.1),
            r matches Ok(s) ==> s@ == decode_utf8(self@.1),
            r matches Err(e) ==> e == EncodingError::InvalidEncoding,
    {
        match string_from_utf8(self.data.clone()) {
            Ok(s) => Ok(s),
            Err(_) => Err(EncodingError::InvalidEncoding),
        }
    }

    /// A one-line description for people to read; never read back.
    pub fn to_string(&self) -> (r: String)
        ensures
            valid_utf8(summary_bytes(self@)),
            r@ == decode_utf8(summary_bytes(self@)),
    {
        proof {
            use_type_invariant(self);
        }
        let tb = self.chunk_type.bytes();
        let mut out: Vec<u8> = Vec::new();
        push_all(&mut out, "{ length: ".as_bytes());
        push_aligned_decimal(&mut out, self.data.len() as u32, 4);
        push_all(&mut out, " type: ".as_bytes());
        push_all(&mut out, tb.as_slice());
        push_all(&mut out, ", data: ".as_bytes());
        match string_from_utf8(self.data.clone()) {
            Ok(_) => push_all(&mut out, self.data.as_slice()),
            Err(_) => push_all(&mut out, "<Invalid UTF-8>".as_bytes()),
        }
        push_all(&mut out, ", crc ".as_bytes());
        push_aligned_decimal(&mut out, self.crc, 10);
        push_all(&mut out, " }".as_bytes());
        proof {
            broadcast use encode_utf8_valid_utf8;

            lemma_ascii_decodes(right_aligned(decimal(self.data@.len()), 4));
            lemma_ascii_decodes(right_aligned(decimal(self.crc as nat), 10));
            assert(ascii_bytes(self.chunk_type@)) by {
                assert forall|i: int| 0 <= i < self.chunk_type@.len() implies #[trigger] self.chunk_type@[i] < 128 by {
                    assert(crate::chunk_type::is_ascii_letter(self.chunk_type@[i]));
                }
            }
            lemma_ascii_decodes(self.chunk_type@);
            let p1 = "{ length: ".spec_bytes();
            let p2 = right_aligned(decimal(self.data@.len()), 4);
            let p3 = " type: ".spec_bytes();
            let p4 = self.chunk_type@;
            let p5 = ", data: ".spec_bytes();
            let p6 = shown_data(self.data@);
            let p7 = ", crc ".spec_bytes();
            let p8 = right_aligned(decimal(self.crc as nat), 10);
            let p9 = " }".spec_bytes();
            assert(valid_utf8(p1) && valid_utf8(p3) && valid_utf8(p5) && valid_utf8(p6) && valid_utf8(p7)
                && valid_utf8(p9));
            valid_utf8_concat(p1, p2);
            valid_utf8_concat(p1 + p2, p3);
            valid_utf8_concat(p1 + p2 + p3, p4);
            valid_utf8_concat(p1 + p2 + p3 + p4, p5);
            valid_utf8_concat(p1 + p2 + p3 + p4 + p5, p6);
            valid_utf8_concat(p1 + p2 + p3 + p4 + p5 + p6, p7);
            valid_utf8_concat(p1 + p2 + p3 + p4 + p5 + p6 + p7, p8);
            valid_utf8_concat(p1 + p2 + p3 + p4 + p5 + p6 + p7 + p8, p9);
            assert(summary_bytes(self@) == p1 + p2 + p3 + p4 + p5 + p6 + p7 + p8 + p9);
            assert(out@ =~= summary_bytes(self@));
        }
        match string_from_utf8(out) {
            Ok(s) => s,
            Err(_) => String::new(),
        }
    }

    /// The wire form: length, type code, payload and checksum, integers big-endian.
    pub fn as_bytes(&self) -> (r: Vec<u8>)
        ensures
            r@ == frame_bytes(self@),
            chunk_ok(self@),
    {
        proof {
            use_type_invariant(self);
        }
        let mut out: Vec<u8> = Vec::new();
        push_be_u32(&mut out, self.data.len() as u32);
        let tb = self.chunk_type.bytes();
        push_all(&mut out, tb.as_slice());
        push_all(&mut out, self.data.as_slice());
        push_be_u32(&mut out, self.crc);
        out
    }

    /// Reads `bytes` as exactly one chunk frame.
    pub fn parse(bytes: &[u8]) -> (r: Result<Chunk, ChunkParserError>)
        ensures
            r is Ok <==> parse_frame(bytes@) is Ok,
            r matches Ok(c) ==> parse_frame(bytes@) == Ok::<ChunkModel, ChunkParserError>(c@),
            r matches Err(e) ==> parse_frame(bytes@) == Err::<ChunkModel, ChunkParserError>(e),
    {
        let n = bytes.len();
        if n < MIN_CHUNK_SIZE {
            return Err(ChunkParserError::Incomplete);
        }
        let declared = read_be_u32(bytes, 0);
        if declared as usize != n - MIN_CHUNK_SIZE {
            return Err(ChunkParserError::InvalidLengthField { expected: n - MIN_CHUNK_SIZE, found: declared });
        }
        let tb: [u8; 4] = [bytes[4], bytes[5], bytes[6], bytes[7]];
        assert(tb@ =~= bytes@.subrange(4, 8));
        let chunk_type = match ChunkType::from_bytes(tb) {
            Ok(t) => t,
            Err(e) => {
                return Err(ChunkParserError::InvalidChunkType(e));
            },
        };
        let mut data: Vec<u8> = Vec::new();
        let mut i: usize = 8;
        while i < n - 4
            invariant
                8 <= i <= n - 4,
                n == bytes@.len(),
                n >= 12,
                data@ == bytes@.subrange(8, i as int),
            decreases n - 4 - i,
        {
            data.push(bytes[i]);
            i = i + 1;
            assert(data@ =~= bytes@.subrange(8, i as int));
        }
        let stored = read_be_u32(bytes, n - 4);
        let chunk = Chunk::new(chunk_type, data);
        let computed = chunk.crc();
        if stored != computed {
            return Err(ChunkParserError::InvalidChecksum);
        }
        Ok(chunk)
    }
}

/// Reading the wire form of a chunk gives the chunk back.
pub proof fn lemma_chunk_round_trip(c: ChunkModel)
    requires
        chunk_ok(c),
    ensures
        parse_frame(frame_bytes(c)) == Ok::<ChunkModel, ChunkParserError>(c),
{
    let b = frame_bytes(c);
    let len = c.1.len();
    lemma_be_round_trip(len as u32);
    lemma_be_round_trip(chunk_crc(c.0, c.1));
    assert(b.subrange(0, 4) =~= be_bytes(len as u32));
    assert(be_value(b) == be_value(b.subrange(0, 4)));
    assert(b.subrange(4, 8) =~= c.0);
    assert(b.subrange(8, b.len() - 4) =~= c.1);
    assert(b.subrange(b.len() - 4, b.len() as int) =~= be_bytes(chunk_crc(c.0, c.1)));
}

/// A frame whose length field does not count the bytes between the type code
/// and the checksum is refused for its length, whatever else it holds.
pub proof fn lemma_length_enforced(b: Seq<u8>)
    requires
        b.len() >= 12,
        be_value(b) as int != b.len() - 12,
        b.len() <= usize::MAX,
    ensures
        parse_frame(b) == Err::<ChunkModel, ChunkParserError>(
            ChunkParserError::InvalidLengthField { expected: (b.len() - 12) as usize, found: be_value(b) },
        ),
{
}

/// With a legal type code and a length field that matches, a frame is refused
/// exactly when its stored checksum differs from the one computed.
pub proof fn lemma_checksum_decides(c: ChunkModel, stored: u32)
    requires
        chunk_ok(c),
    ensures
        parse_frame(be_bytes(c.1.len() as u32) + c.0 + c.1 + be_bytes(stored)) == (if stored
            == chunk_crc(c.0, c.1) {
            Ok::<ChunkModel, ChunkParserError>(c)
        } else {
            Err::<ChunkModel, ChunkParserError>(ChunkParserError::InvalidChecksum)
        }),
{
    let b = be_bytes(c.1.len() as u32) + c.0 + c.1 + be_bytes(stored);
    lemma_be_round_trip(c.1.len() as u32);
    lemma_be_round_trip(stored);
    assert(be_value(b) == be_value(be_bytes(c.1.len() as u32)));
    assert(b.subrange(4, 8) =~= c.0);
    assert(b.subrange(8, b.len() - 4) =~= c.1);
    assert(b.subrange(b.len() - 4, b.len() as int) =~= be_bytes(stored));
}

} // verus!
