//! The payload engine: body framing (content-length and chunked) and
//! the content-coding pipeline.
//!
//! A chunked body is kept as one owned buffer of every byte consumed
//! while dechunking, plus explicit (offset, length) ranges marking each
//! chunk's data bytes inside that buffer; no view can outlive or alias
//! past the buffer.  The coding pipeline delegates the byte transforms
//! to the gzip, deflate and brotli codecs behind trusted wrappers and
//! is itself verified around them.
use vstd::prelude::*;
use vstd::pervasive::unreached;
use std::io::Read;
use flate2::Compression;
use flate2::read::{GzDecoder, GzEncoder, DeflateDecoder, DeflateEncoder};
use crate::bytes::{subvec, append_bytes, spec_parse_hex, parse_hex};
use crate::tokens::{ParsingError, Encoding, ToHeader};
use crate::wire::{spec_read_line, read_line, spec_read_exact, read_exact};

verus! {

/// What inflating a gzip stream yields: the decoded bytes, or nothing
/// when the stream is malformed.  The result depends on the bytes
/// alone.
pub uninterp spec fn spec_gzip_decode(s: Seq<u8>) -> Option<Seq<u8>>;

/// What inflating a raw deflate stream yields; `None` on malformed
/// input.  The result depends on the bytes alone.
pub uninterp spec fn spec_deflate_decode(s: Seq<u8>) -> Option<Seq<u8>>;

/// What decompressing a brotli stream yields; `None` on malformed
/// input.  The result depends on the bytes alone.
pub uninterp spec fn spec_brotli_decode(s: Seq<u8>) -> Option<Seq<u8>>;

/// What a lossy text rendering of a byte string shows.  The result
/// depends on the bytes alone.
pub uninterp spec fn spec_lossy(s: Seq<u8>) -> Seq<char>;

/// Relies on flate2's read::GzDecoder: inflating is a function of the
/// input bytes alone; a malformed stream fails.
#[verifier::external_body]
fn gzip_decode(encoded: &Vec<u8>) -> (r: Result<Vec<u8>, ParsingError>)
    ensures
        match r {
            Ok(v) => spec_gzip_decode(encoded@) == Some(v@),
            Err(e) => e == ParsingError::IO && spec_gzip_decode(encoded@) == None::<Seq<u8>>,
        },
{
    let mut out: Vec<u8> = Vec::new();
    match GzDecoder::new(encoded.as_slice()).read_to_end(&mut out) {
        Ok(_) => Ok(out),
        Err(_) => Err(ParsingError::IO),
    }
}

/// Relies on flate2's read::GzEncoder: its output is a well-formed gzip
/// stream that GzDecoder inflates back to the input.  Compressing from
/// an in-memory slice cannot fail: the encoder only errs when its
/// underlying reader does, and a slice never does.
#[verifier::external_body]
fn gzip_encode(payload: &Vec<u8>) -> (r: Vec<u8>)
    ensures
        spec_gzip_decode(r@) == Some(payload@),
{
    let mut out: Vec<u8> = Vec::new();
    match GzEncoder::new(payload.as_slice(), Compression::default()).read_to_end(&mut out) {
        Ok(_) => out,
        // unreachable: a slice reader never fails
        Err(_) => out,
    }
}

/// Relies on flate2's read::DeflateDecoder: inflating is a function of
/// the input bytes alone; a malformed stream fails.
#[verifier::external_body]
fn deflate_decode(encoded: &Vec<u8>) -> (r: Result<Vec<u8>, ParsingError>)
    ensures
        match r {
            Ok(v) => spec_deflate_decode(encoded@) == Some(v@),
            Err(e) => e == ParsingError::IO && spec_deflate_decode(encoded@) == None::<Seq<u8>>,
        },
{
    let mut out: Vec<u8> = Vec::new();
    match DeflateDecoder::new(encoded.as_slice()).read_to_end(&mut out) {
        Ok(_) => Ok(out),
        Err(_) => Err(ParsingError::IO),
    }
}

/// Relies on flate2's read::DeflateEncoder: its output is a deflate
/// stream that DeflateDecoder inflates back to the input.  Compressing
/// from an in-memory slice cannot fail: the encoder only errs when its
/// underlying reader does, and a slice never does.
#[verifier::external_body]
fn deflate_encode(payload: &Vec<u8>) -> (r: Vec<u8>)
    ensures
        spec_deflate_decode(r@) == Some(payload@),
{
    let mut out: Vec<u8> = Vec::new();
    match DeflateEncoder::new(payload.as_slice(), Compression::default()).read_to_end(&mut out) {
        Ok(_) => out,
        // unreachable: a slice reader never fails
        Err(_) => out,
    }
}

/// Relies on brotli's Decompressor: decompressing is a function of the
/// input bytes alone; a malformed stream fails.
#[verifier::external_body]
fn brotli_decode(encoded: &Vec<u8>) -> (r: Result<Vec<u8>, ParsingError>)
    ensures
        match r {
            Ok(v) => spec_brotli_decode(encoded@) == Some(v@),
            Err(e) => e == ParsingError::IO && spec_brotli_decode(encoded@) == None::<Seq<u8>>,
        },
{
    let mut out: Vec<u8> = Vec::new();
    match brotli::Decompressor::new(encoded.as_slice(), 4096).read_to_end(&mut out) {
        Ok(_) => Ok(out),
        Err(_) => Err(ParsingError::IO),
    }
}

/// Relies on brotli's CompressorReader: its output is a brotli stream
/// that Decompressor brings back to the input.  Compressing from an
/// in-memory slice cannot fail: the compressor only errs when its
/// underlying reader does, and a slice never does.
#[verifier::external_body]
fn brotli_encode(payload: &Vec<u8>) -> (r: Vec<u8>)
    ensures
        spec_brotli_decode(r@) == Some(payload@),
{
    let mut out: Vec<u8> = Vec::new();
    match brotli::CompressorReader::new(payload.as_slice(), 4096, 3, 20).read_to_end(&mut out) {
        Ok(_) => out,
        // unreachable: a slice reader never fails
        Err(_) => out,
    }
}

/// Relies on String::from_utf8_lossy: the rendering is a function of
/// the bytes alone.
#[verifier::external_body]
pub(crate) fn lossy_text(bytes: &Vec<u8>) -> (r: String)
    ensures
        r@ == spec_lossy(bytes@),
{
    String::from_utf8_lossy(bytes.as_slice()).into_owned()
}

/// What one coding's decoder yields on the given bytes.
pub open spec fn spec_encoding_decode(e: Encoding, s: Seq<u8>) -> Option<Seq<u8>> {
    match e {
        Encoding::GZip => spec_gzip_decode(s),
        Encoding::Deflate => spec_deflate_decode(s),
        Encoding::Brotli => spec_brotli_decode(s),
    }
}

impl Encoding {
    /// Decodes one coding; a malformed stream is an `IO` error.
    fn decode(&self, encoded: &Vec<u8>) -> (r: Result<Vec<u8>, ParsingError>)
        ensures
            match r {
                Ok(v) => spec_encoding_decode(*self, encoded@) == Some(v@),
                Err(e) => e == ParsingError::IO
                    && spec_encoding_decode(*self, encoded@) == None::<Seq<u8>>,
            },
    {
        match self {
            Encoding::GZip => gzip_decode(encoded),
            Encoding::Deflate => deflate_decode(encoded),
            Encoding::Brotli => brotli_decode(encoded),
        }
    }

    /// Encodes one coding; the result decodes back to the input.
    fn encode(&self, payload: &Vec<u8>) -> (r: Vec<u8>)
        ensures
            spec_encoding_decode(*self, r@) == Some(payload@),
    {
        match self {
            Encoding::GZip => gzip_encode(payload),
            Encoding::Deflate => deflate_encode(payload),
            Encoding::Brotli => brotli_encode(payload),
        }
    }
}

/// Undoing a coding list: the decoder of the last-listed coding runs
/// first, its output feeds the one before it, and so on up the list.
pub open spec fn spec_decode_chain(encs: Seq<Encoding>, s: Seq<u8>) -> Option<Seq<u8>>
    decreases encs.len(),
{
    if encs.len() == 0 {
        Some(s)
    } else {
        match spec_encoding_decode(encs.last(), s) {
            None => None,
            Some(t) => spec_decode_chain(encs.drop_last(), t),
        }
    }
}

/// An ordered content-coding list, as listed in a `Content-Encoding`
/// header: outer-to-inner in the order the codings were applied.
pub struct Encodings(Vec<Encoding>);

impl View for Encodings {
    type V = Seq<Encoding>;

    closed spec fn view(&self) -> Seq<Encoding> {
        self.0@
    }
}

impl Encodings {
    /// Parses a comma-separated coding list, silently dropping
    /// unrecognized tokens.
    pub fn parse(encodings: &Vec<u8>) -> (r: Encodings)
        ensures
            r@ == crate::tokens::spec_parse_list::<Encoding>(crate::bytes::spec_split(encodings@, 44u8)),
    {
        Encodings(Encoding::parse_many(encodings))
    }

    /// Undoes the codings in reverse list order: the last listed is
    /// decoded first.  A malformed stream is an `IO` error.
    #[verifier::loop_isolation(false)]
    pub fn decode(&self, encoded: &Vec<u8>) -> (r: Result<Vec<u8>, ParsingError>)
        ensures
            match r {
                Ok(v) => spec_decode_chain(self@, encoded@) == Some(v@),
                Err(e) => e == ParsingError::IO
                    && spec_decode_chain(self@, encoded@) == None::<Seq<u8>>,
            },
    {
        let mut buffer = subvec(encoded, 0, encoded.len());
        let mut j: usize = self.0.len();
        proof {
            assert(self@.take(self@.len() as int) =~= self@);
            assert(encoded@.subrange(0, encoded@.len() as int) =~= encoded@);
        }
        while j > 0
            invariant
                j <= self@.len(),
                spec_decode_chain(self@, encoded@) == spec_decode_chain(self@.take(j as int), buffer@),
            decreases j,
        {
            let decoded = match self.0[j - 1].decode(&buffer) {
                Ok(v) => v,
                Err(e) => {
                    proof {
                        assert(self@.take(j as int).last() == self@[j - 1]);
                    }
                    return Err(e);
                },
            };
            proof {
                assert(self@.take(j as int).last() == self@[j - 1]);
                assert(self@.take(j as int).drop_last() =~= self@.take(j - 1));
            }
            buffer = decoded;
            j = j - 1;
        }
        proof {
            assert(self@.take(0) =~= Seq::<Encoding>::empty());
        }
        Ok(buffer)
    }

    /// Applies the codings in listed order, each stage consuming the
    /// previous stage's output.  Encoding always succeeds, and the
    /// result decodes back to the input; an empty coding list returns
    /// the payload unchanged.
    #[verifier::loop_isolation(false)]
    pub fn encode(&self, payload: &Vec<u8>) -> (r: Result<Vec<u8>, ParsingError>)
        ensures
            r is Ok,
            r matches Ok(v) ==> spec_decode_chain(self@, v@) == Some(payload@),
    {
        let mut buffer = subvec(payload, 0, payload.len());
        let mut i: usize = 0;
        proof {
            assert(self@.take(0) =~= Seq::<Encoding>::empty());
            assert(payload@.subrange(0, payload@.len() as int) =~= payload@);
        }
        while i < self.0.len()
            invariant
                i <= self@.len(),
                spec_decode_chain(self@.take(i as int), buffer@) == Some(payload@),
            decreases self@.len() - i,
        {
            let encoded = self.0[i].encode(&buffer);
            proof {
                assert(self@.take(i + 1).last() == self@[i as int]);
                assert(self@.take(i + 1).drop_last() =~= self@.take(i as int));
            }
            buffer = encoded;
            i = i + 1;
        }
        proof {
            assert(self@.take(self@.len() as int) =~= self@);
        }
        Ok(buffer)
    }
}

/// One chunk's data bytes inside a chunked payload's owned buffer.
#[derive(Clone, Copy, Debug, PartialEq, Eq, Structural)]
pub struct Chunk {
    pub offset: usize,
    pub length: usize,
}

/// A message body: either one plain byte string, or the owned buffer of
/// a dechunked body with the ranges of its chunks' data bytes.
pub enum Payload {
    Identity(Vec<u8>),
    Chunked { content: Vec<u8>, chunks: Vec<Chunk> },
}

/// The (offset, length) pairs of a chunk list.
pub open spec fn spec_chunk_pairs(chunks: Seq<Chunk>) -> Seq<(int, int)> {
    chunks.map_values(|c: Chunk| (c.offset as int, c.length as int))
}

/// The chunks' data bytes, in read order, concatenated.
pub open spec fn spec_concat_chunks(content: Seq<u8>, chunks: Seq<Chunk>) -> Seq<u8>
    decreases chunks.len(),
{
    if chunks.len() == 0 {
        Seq::empty()
    } else {
        spec_concat_chunks(content, chunks.drop_last())
            + content.subrange(chunks.last().offset as int,
                chunks.last().offset + chunks.last().length)
    }
}

/// Concatenating one more chunk appends its data bytes.
pub proof fn lemma_concat_chunks_snoc(content: Seq<u8>, chunks: Seq<Chunk>, c: Chunk)
    ensures
        spec_concat_chunks(content, chunks.push(c))
            == spec_concat_chunks(content, chunks) + content.subrange(c.offset as int, c.offset + c.length),
{
    assert(chunks.push(c).drop_last() =~= chunks);
    assert(chunks.push(c).last() == c);
}

/// Dechunking at `pos`, accumulating consumed bytes into `content` and
/// chunk ranges into `chunks`.  Each turn reads one chunk-size line; a
/// line that is empty, no hexadecimal numeral, or worth zero ends the
/// chunks.  Otherwise exactly the chunk's data and its terminator are
/// consumed and the data range recorded.  `None` is incomplete input.
pub open spec fn spec_dechunk(input: Seq<u8>, pos: int, content: Seq<u8>, chunks: Seq<(int, int)>) -> Option<(Seq<u8>, Seq<(int, int)>, int)>
    decreases input.len() - pos,
{
    match spec_read_line(input, pos) {
        None => None,
        Some((line, p2)) => {
            if !(pos + 2 <= p2 <= input.len()) {
                // a read line always ends inside the buffer and past its
                // start; the guard carries that bound for termination
                None
            } else {
                let content2 = content + input.subrange(pos, p2);
                match spec_parse_hex(line) {
                    None => Some((content2, chunks, p2)),
                    Some(n) => if n <= 0 {
                        Some((content2, chunks, p2))
                    } else if p2 + n + 2 <= input.len() {
                        let content3 = content2 + input.subrange(p2, p2 + n + 2);
                        let chunks2 = chunks.push((content2.len() as int, n));
                        spec_dechunk(input, p2 + n + 2, content3, chunks2)
                    } else {
                        None
                    },
                }
            }
        },
    }
}

impl Payload {
    /// Payload well-formedness: every chunk range lies inside the owned
    /// buffer.
    pub open spec fn wf(&self) -> bool {
        match self {
            Payload::Identity(_) => true,
            Payload::Chunked { content, chunks } => forall|k: int|
                0 <= k < chunks@.len() ==> (#[trigger] chunks@[k]).offset + chunks@[k].length
                    <= content@.len(),
        }
    }

    /// Every byte this payload owns: the plain bytes, or the whole
    /// dechunk buffer, size lines and terminators included.
    pub open spec fn spec_raw(&self) -> Seq<u8> {
        match self {
            Payload::Identity(content) => content@,
            Payload::Chunked { content, .. } => content@,
        }
    }

    /// The body proper: the plain bytes, or the chunks' data bytes
    /// concatenated in read order.
    pub open spec fn spec_data(&self) -> Seq<u8> {
        match self {
            Payload::Identity(content) => content@,
            Payload::Chunked { content, chunks } => spec_concat_chunks(content@, chunks@),
        }
    }

    /// Whether this payload is chunked.
    pub open spec fn spec_is_chunked(&self) -> bool {
        match self {
            Payload::Identity(_) => false,
            Payload::Chunked { .. } => true,
        }
    }

    /// An empty plain payload.
    pub fn default() -> (r: Payload)
        ensures
            !r.spec_is_chunked(),
            r.spec_raw() == Seq::<u8>::empty(),
            r.wf(),
    {
        let v: Vec<u8> = Vec::new();
        Payload::Identity(v)
    }

    /// A plain payload holding a copy of `content`.
    pub fn new(content: &Vec<u8>) -> (r: Payload)
        ensures
            !r.spec_is_chunked(),
            r.spec_raw() == content@,
            r.wf(),
    {
        Payload::Identity(subvec(content, 0, content.len()))
    }

    /// Reads exactly `length` body bytes at `pos`; a shorter buffer is
    /// an `IO` error.  Trailing bytes are left unconsumed.
    pub fn read(input: &Vec<u8>, pos: usize, length: usize) -> (r: Result<(Payload, usize), ParsingError>)
        requires
            pos <= input@.len(),
        ensures
            match r {
                Ok(p) => pos + length <= input@.len()
                    && p.1 == pos + length
                    && !p.0.spec_is_chunked()
                    && p.0.wf()
                    && p.0.spec_raw() == input@.subrange(pos as int, pos + length),
                Err(e) => e == ParsingError::IO && pos + length > input@.len(),
            },
    {
        match read_exact(input, pos, length) {
            Ok((bytes, p2)) => Ok((Payload::Identity(bytes), p2)),
            Err(e) => Err(e),
        }
    }

    /// Dechunks a body at `pos`; incomplete input is an `IO` error.
    #[verifier::loop_isolation(false)]
    pub fn dechunk(input: &Vec<u8>, pos: usize) -> (r: Result<(Payload, usize), ParsingError>)
        requires
            pos <= input@.len(),
        ensures
            match r {
                Ok(p) => ({
                    &&& p.0.spec_is_chunked()
                    &&& p.0.wf()
                    &&& match p.0 {
                        Payload::Chunked { content, chunks } => spec_dechunk(
                            input@, pos as int, Seq::empty(), Seq::empty())
                            == Some((content@, spec_chunk_pairs(chunks@), p.1 as int)),
                        Payload::Identity(_) => false,
                    }
                    &&& pos < p.1 <= input@.len()
                }),
                Err(e) => e == ParsingError::IO
                    && spec_dechunk(input@, pos as int, Seq::empty(), Seq::empty())
                        == None::<(Seq<u8>, Seq<(int, int)>, int)>,
            },
    {
        let mut content: Vec<u8> = Vec::new();
        let mut chunks: Vec<Chunk> = Vec::new();
        let mut p: usize = pos;
        proof {
            assert(spec_chunk_pairs(chunks@) =~= Seq::<(int, int)>::empty());
            assert(content@ =~= Seq::<u8>::empty());
        }
        loop
            invariant
                pos <= p <= input@.len(),
                forall|k: int| 0 <= k < chunks@.len() ==> (#[trigger] chunks@[k]).offset
                    + chunks@[k].length <= content@.len(),
                spec_dechunk(input@, pos as int, Seq::empty(), Seq::empty())
                    == spec_dechunk(input@, p as int, content@, spec_chunk_pairs(chunks@)),
            decreases input@.len() - p,
        {
            let ghost content0 = content@;
            let ghost pairs0 = spec_chunk_pairs(chunks@);
            let (line, p2) = match read_line(input, p) {
                Ok(x) => x,
                Err(e) => {
                    return Err(e);
                },
            };
            let raw_line = subvec(input, p, p2);
            match parse_hex(&line) {
                None => {
                    append_bytes(&mut content, &raw_line);
                    proof {
                        assert(content@ =~= content0 + input@.subrange(p as int, p2 as int));
                        assert(spec_dechunk(input@, p as int, content0, pairs0)
                            == Some((content@, pairs0, p2 as int)));
                    }
                    return Ok((Payload::Chunked { content, chunks }, p2));
                },
                Some(n) => {
                    if n == 0 {
                        append_bytes(&mut content, &raw_line);
                        proof {
                            assert(content@ =~= content0 + input@.subrange(p as int, p2 as int));
                            assert(spec_dechunk(input@, p as int, content0, pairs0)
                                == Some((content@, pairs0, p2 as int)));
                        }
                        return Ok((Payload::Chunked { content, chunks }, p2));
                    }
                    let rem = input.len() - p2;
                    if rem >= 2 && n <= rem - 2 {
                        append_bytes(&mut content, &raw_line);
                        let ghost content2 = content@;
                        let offset = content.len();
                        let (data, p3) = match read_exact(input, p2, n + 2) {
                            Ok(x) => x,
                            Err(_) => unreached(),
                        };
                        append_bytes(&mut content, &data);
                        let ghost chunks0 = chunks@;
                        chunks.push(Chunk { offset, length: n });
                        proof {
                            assert(content2 =~= content0 + input@.subrange(p as int, p2 as int));
                            assert(content@ =~= content2 + input@.subrange(p2 as int, p2 + n + 2));
                            assert(spec_chunk_pairs(chunks@) =~= spec_chunk_pairs(chunks0).push(
                                (offset as int, n as int)));
                            assert(spec_dechunk(input@, p as int, content0, pairs0)
                                == spec_dechunk(input@, p3 as int, content@, spec_chunk_pairs(chunks@)));
                        }
                        p = p3;
                    } else {
                        proof {
                            assert(spec_dechunk(input@, p as int, content0, pairs0)
                                == None::<(Seq<u8>, Seq<(int, int)>, int)>);
                        }
                        return Err(ParsingError::IO);
                    }
                },
            }
        }
    }

    /// Copies of the chunks' data bytes in read order; a plain payload
    /// is one chunk of itself.
    #[verifier::loop_isolation(false)]
    pub fn chunks(&self) -> (r: Vec<Vec<u8>>)
        requires
            self.wf(),
        ensures
            match self {
                Payload::Identity(content) => r.deep_view() == seq![content@],
                Payload::Chunked { content, chunks } => r.deep_view().len() == chunks@.len()
                    && (forall|k: int| 0 <= k < chunks@.len() ==> r.deep_view()[k]
                        == content@.subrange((#[trigger] chunks@[k]).offset as int,
                            chunks@[k].offset + chunks@[k].length)),
            },
    {
        match self {
            Payload::Identity(content) => {
                let mut r: Vec<Vec<u8>> = Vec::new();
                r.push(subvec(content, 0, content.len()));
                proof {
                    assert(r.deep_view() =~~= seq![content@.subrange(0, content@.len() as int)]);
                    assert(content@.subrange(0, content@.len() as int) =~= content@);
                }
                r
            },
            Payload::Chunked { content, chunks } => {
                let clen = content.len();
                let mut r: Vec<Vec<u8>> = Vec::new();
                let mut i: usize = 0;
                while i < chunks.len()
                    invariant
                        i <= chunks@.len(),
                        self.wf(),
                        (self == Payload::Chunked { content: *content, chunks: *chunks }),
                        r.deep_view().len() == i,
                        forall|k: int| 0 <= k < i ==> r.deep_view()[k]
                            == content@.subrange((#[trigger] chunks@[k]).offset as int,
                                chunks@[k].offset + chunks@[k].length),
                    decreases chunks@.len() - i,
                {
                    let c = chunks[i];
                    proof {
                        assert(c.offset + c.length <= clen);
                    }
                    let ghost r0 = r.deep_view();
                    r.push(subvec(content, c.offset, c.offset + c.length));
                    proof {
                        assert(r.deep_view() =~~= r0.push(content@.subrange(c.offset as int,
                            c.offset + c.length)));
                    }
                    i = i + 1;
                }
                r
            },
        }
    }

    /// Every byte this payload owns; for a chunked payload the size
    /// lines and terminators are included.
    pub fn raw(&self) -> (r: &Vec<u8>)
        ensures
            r@ == self.spec_raw(),
    {
        match self {
            Payload::Identity(content) => content,
            Payload::Chunked { content, .. } => content,
        }
    }

    /// The body proper as one owned byte string.
    #[verifier::loop_isolation(false)]
    pub fn data(&self) -> (r: Vec<u8>)
        requires
            self.wf(),
        ensures
            r@ == self.spec_data(),
    {
        match self {
            Payload::Identity(content) => subvec(content, 0, content.len()),
            Payload::Chunked { content, chunks } => {
                let clen = content.len();
                let mut out: Vec<u8> = Vec::new();
                let mut i: usize = 0;
                while i < chunks.len()
                    invariant
                        i <= chunks@.len(),
                        self.wf(),
                        (self == Payload::Chunked { content: *content, chunks: *chunks }),
                        out@ == spec_concat_chunks(content@, chunks@.take(i as int)),
                    decreases chunks@.len() - i,
                {
                    let c = chunks[i];
                    proof {
                        assert(c.offset + c.length <= clen);
                    }
                    let piece = subvec(content, c.offset, c.offset + c.length);
                    append_bytes(&mut out, &piece);
                    proof {
                        lemma_concat_chunks_snoc(content@, chunks@.take(i as int), chunks@[i as int]);
                        assert(chunks@.take(i + 1) =~= chunks@.take(i as int).push(chunks@[i as int]));
                    }
                    i = i + 1;
                }
                proof {
                    assert(chunks@.take(chunks@.len() as int) =~= chunks@);
                }
                out
            },
        }
    }

    /// A lossy, diagnostic-only text rendering of the body bytes.
    pub fn text(&self) -> (r: String)
        requires
            self.wf(),
        ensures
            r@ == spec_lossy(self.spec_data()),
    {
        let d = self.data();
        lossy_text(&d)
    }

    /// The bytes to put on the wire.  Chunked output is unimplemented;
    /// a chunked payload is outside this function's contract.
    pub fn construct(&self) -> (r: &Vec<u8>)
        requires
            !self.spec_is_chunked(),
        ensures
            r@ == self.spec_raw(),
    {
        match self {
            Payload::Identity(content) => content,
            Payload::Chunked { .. } => unreached(),
        }
    }

    /// Undoes a coding list over the body proper; the result is a plain
    /// payload.  A malformed stream is an `IO` error.
    pub fn decode(&self, encodings: &Encodings) -> (r: Result<Payload, ParsingError>)
        requires
            self.wf(),
        ensures
            match r {
                Ok(p) => !p.spec_is_chunked() && p.wf()
                    && spec_decode_chain(encodings@, self.spec_data()) == Some(p.spec_raw()),
                Err(e) => e == ParsingError::IO
                    && spec_decode_chain(encodings@, self.spec_data()) == None::<Seq<u8>>,
            },
    {
        let d = self.data();
        match encodings.decode(&d) {
            Ok(v) => Ok(Payload::Identity(v)),
            Err(e) => Err(e),
        }
    }

    /// Applies a coding list to a plain payload.  Encoding always
    /// succeeds, and the result is a plain payload that decodes back
    /// to this payload's bytes.
    pub fn encode(&self, encodings: &Encodings) -> (r: Result<Payload, ParsingError>)
        requires
            !self.spec_is_chunked(),
        ensures
            r is Ok,
            r matches Ok(p) ==> !p.spec_is_chunked() && p.wf()
                && spec_decode_chain(encodings@, p.spec_raw()) == Some(self.spec_raw()),
    {
        let c = self.construct();
        match encodings.encode(c) {
            Ok(v) => Ok(Payload::Identity(v)),
            Err(_) => unreached(),
        }
    }
}

} // verus!
