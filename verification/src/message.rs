//! The message assembler: Request and Response values composed from the
//! wire codec and the payload engine, with the one parse/construct
//! contract.
//!
//! Parsing retains the exact headline-and-header text consumed, for
//! diagnostics.  Constructing injects a `Content-Length` header
//! whenever the payload is non-empty, and never for an empty payload;
//! chunked output is unimplemented and outside the construct contract.
use vstd::prelude::*;
use crate::bytes::{spec_lower, spec_parse_dec, spec_dec_of, parse_dec, dec_of, subvec, append_bytes};
use crate::tokens::{ParsingError, Method, Version, Status, Encoding, TransferEncoding, ToHeader, spec_parse_list};
use crate::wire::{Headline, Header, Headers, HeaderPair, spec_crlf, spec_parse_headers, spec_parse_headline, spec_construct_headline, spec_construct_headers, spec_store_get, spec_store_add, spec_read_exact};
use crate::payload::{Payload, Encodings, spec_dechunk, spec_chunk_pairs, spec_decode_chain, spec_lossy, lossy_text};
use crate::uri::{Target, ParamPair, spec_parse_target, spec_params_view, spec_construct_target};

verus! {

/// A payload as the specification sees it: plain bytes, or a dechunk
/// buffer with its chunk ranges.
pub enum PayloadModel {
    Identity(Seq<u8>),
    Chunked(Seq<u8>, Seq<(int, int)>),
}

/// The model a Payload value stands for.
pub open spec fn spec_payload_model(p: Payload) -> PayloadModel {
    match p {
        Payload::Identity(content) => PayloadModel::Identity(content@),
        Payload::Chunked { content, chunks } => PayloadModel::Chunked(content@, spec_chunk_pairs(chunks@)),
    }
}

/// The ranges' bytes concatenated in order.
pub open spec fn spec_concat_ranges(content: Seq<u8>, ranges: Seq<(int, int)>) -> Seq<u8>
    decreases ranges.len(),
{
    if ranges.len() == 0 {
        Seq::empty()
    } else {
        spec_concat_ranges(content, ranges.drop_last())
            + content.subrange(ranges.last().0, ranges.last().0 + ranges.last().1)
    }
}

/// The body proper of a payload model.
pub open spec fn spec_model_data(m: PayloadModel) -> Seq<u8> {
    match m {
        PayloadModel::Identity(b) => b,
        PayloadModel::Chunked(content, ranges) => spec_concat_ranges(content, ranges),
    }
}

/// A Payload's data is its model's data.
pub proof fn lemma_payload_model_data(p: Payload)
    ensures
        spec_model_data(spec_payload_model(p)) == p.spec_data(),
{
    match p {
        Payload::Identity(_) => {},
        Payload::Chunked { content, chunks } => {
            lemma_concat_ranges_chunks(content@, chunks@);
        },
    }
}

/// Concatenating chunk ranges equals concatenating the chunks.
pub proof fn lemma_concat_ranges_chunks(content: Seq<u8>, chunks: Seq<crate::payload::Chunk>)
    ensures
        spec_concat_ranges(content, spec_chunk_pairs(chunks))
            == crate::payload::spec_concat_chunks(content, chunks),
    decreases chunks.len(),
{
    if chunks.len() > 0 {
        lemma_concat_ranges_chunks(content, chunks.drop_last());
        assert(spec_chunk_pairs(chunks).drop_last() =~= spec_chunk_pairs(chunks.drop_last()));
        assert(spec_chunk_pairs(chunks).last() == (chunks.last().offset as int, chunks.last().length as int));
    } else {
        assert(spec_chunk_pairs(chunks).len() == 0);
    }
}

/// The normalized `content-length` header name.
pub open spec fn spec_content_length_key() -> Seq<u8> {
    seq![99u8, 111u8, 110u8, 116u8, 101u8, 110u8, 116u8, 45u8, 108u8, 101u8, 110u8, 103u8, 116u8, 104u8]
}

/// The canonical `Content-Length` header name as constructed.
pub open spec fn spec_content_length_name() -> Seq<u8> {
    seq![67u8, 111u8, 110u8, 116u8, 101u8, 110u8, 116u8, 45u8, 76u8, 101u8, 110u8, 103u8, 116u8, 104u8]
}

/// Whether the store claims a chunked transfer coding: its one
/// `transfer-encoding` value, lower-cased, is exactly `chunked`.
pub open spec fn spec_has_chunked(hs: Seq<HeaderPair>) -> bool {
    match spec_store_get(hs, TransferEncoding::spec_normalized()) {
        Some(v) => spec_lower(v) == TransferEncoding::Chunked.spec_token(),
        None => false,
    }
}

/// Message parsing at `pos`, with `tlen` bytes of headline text already
/// read: the header store, the payload model, the position after the
/// headers, and the position after the body.  The framing decision, in
/// strict order: a `content-length` header is read as a decimal and
/// that many bytes taken (an unreadable value is a `Payload` error);
/// else a chunked `transfer-encoding` dechunks; else the body is empty.
/// A `content-encoding` header then has its coding list undone over the
/// body; a malformed stream is an `IO` error.
pub open spec fn spec_parse_message(input: Seq<u8>, pos: int, tlen: int) -> Result<(Seq<HeaderPair>, PayloadModel, int, int), ParsingError> {
    match spec_parse_headers(input, pos, tlen, Seq::empty()) {
        Err(e) => Err(e),
        Ok((hs, hend, _t)) => match spec_store_get(hs, spec_content_length_key()) {
            Some(v) => match spec_parse_dec(v) {
                None => Err(ParsingError::Payload),
                Some(n) => match spec_read_exact(input, hend, n) {
                    None => Err(ParsingError::IO),
                    Some((bytes, end)) => spec_decode_phase(hs, PayloadModel::Identity(bytes), hend, end),
                },
            },
            None => if spec_has_chunked(hs) {
                match spec_dechunk(input, hend, Seq::empty(), Seq::empty()) {
                    None => Err(ParsingError::IO),
                    Some((content, ranges, end)) => spec_decode_phase(hs, PayloadModel::Chunked(content, ranges), hend, end),
                }
            } else {
                spec_decode_phase(hs, PayloadModel::Identity(Seq::empty()), hend, hend)
            },
        },
    }
}

/// The content-coding phase: with a `content-encoding` header the
/// listed codings are undone over the body proper and the payload
/// becomes plain; without one the payload stands as framed.
pub open spec fn spec_decode_phase(hs: Seq<HeaderPair>, pm: PayloadModel, hend: int, end: int) -> Result<(Seq<HeaderPair>, PayloadModel, int, int), ParsingError> {
    match spec_store_get(hs, Encoding::spec_normalized()) {
        None => Ok((hs, pm, hend, end)),
        Some(v) => {
            let encs = spec_parse_list::<Encoding>(crate::bytes::spec_split(v, 44u8));
            match spec_decode_chain(encs, spec_model_data(pm)) {
                None => Err(ParsingError::IO),
                Some(dec) => Ok((hs, PayloadModel::Identity(dec), hend, end)),
            }
        },
    }
}

/// A message: a header store and a payload.
pub struct Message {
    pub headers: Headers,
    pub payload: Payload,
}

impl Message {
    /// An empty message.
    pub fn new() -> (r: Message)
        ensures
            r.headers@ == Seq::<HeaderPair>::empty(),
            r.headers.wf(),
            !r.payload.spec_is_chunked(),
            r.payload.spec_raw() == Seq::<u8>::empty(),
            r.payload.wf(),
    {
        Message { headers: Headers::new(), payload: Payload::default() }
    }

    /// Parses headers and body at `pos`, with `tlen` bytes of this
    /// message's text already read.  Returns the message, the position
    /// after the headers, and the position after the body.
    pub fn parse(input: &Vec<u8>, pos: usize, tlen: usize) -> (r: Result<(Message, usize, usize), ParsingError>)
        requires
            pos <= input@.len(),
        ensures
            match r {
                Ok(p) => ({
                    &&& spec_parse_message(input@, pos as int, tlen as int)
                        == Ok::<_, ParsingError>((p.0.headers@, spec_payload_model(p.0.payload), p.1 as int, p.2 as int))
                    &&& p.0.headers.wf()
                    &&& p.0.payload.wf()
                    &&& pos < p.1 <= p.2 <= input@.len()
                }),
                Err(e) => spec_parse_message(input@, pos as int, tlen as int)
                    == Err::<(Seq<HeaderPair>, PayloadModel, int, int), _>(e),
            },
    {
        let (headers, hend) = match Headers::parse(input, pos, tlen) {
            Ok(x) => x,
            Err(e) => {
                return Err(e);
            },
        };
        let cl_key: Vec<u8> = vec![
            99u8, 111u8, 110u8, 116u8, 101u8, 110u8, 116u8, 45u8, 108u8, 101u8, 110u8, 103u8,
            116u8, 104u8,
        ];
        proof {
            assert(cl_key@ =~= spec_content_length_key());
        }
        let payload: Payload;
        let end: usize;
        match headers.get(&cl_key) {
            Some(v) => {
                let n = match parse_dec(v) {
                    Some(n) => n,
                    None => {
                        return Err(ParsingError::Payload);
                    },
                };
                match Payload::read(input, hend, n) {
                    Ok((p, e)) => {
                        payload = p;
                        end = e;
                    },
                    Err(e) => {
                        return Err(e);
                    },
                }
            },
            None => {
                if headers.have::<TransferEncoding>(TransferEncoding::Chunked) {
                    match Payload::dechunk(input, hend) {
                        Ok((p, e)) => {
                            payload = p;
                            end = e;
                        },
                        Err(e) => {
                            return Err(e);
                        },
                    }
                } else {
                    payload = Payload::default();
                    end = hend;
                }
            },
        }
        let ce_key = Encoding::normalized();
        let decoded: Payload = match headers.get(&ce_key) {
            Some(v) => {
                let encodings = Encodings::parse(v);
                proof {
                    lemma_payload_model_data(payload);
                }
                match payload.decode(&encodings) {
                    Ok(p) => p,
                    Err(e) => {
                        return Err(e);
                    },
                }
            },
            None => payload,
        };
        Ok((Message { headers, payload: decoded }, hend, end))
    }

    /// Renders the message: with a non-empty payload a `Content-Length`
    /// header is first added to this message (never for an empty one),
    /// then every header line, a blank line, and the payload bytes.
    pub fn construct(&mut self) -> (r: Vec<u8>)
        requires
            old(self).headers.wf(),
            !old(self).payload.spec_is_chunked(),
        ensures
            final(self).payload == old(self).payload,
            final(self).headers@ == (if old(self).payload.spec_raw().len() > 0 {
                spec_store_add(old(self).headers@,
                    (spec_content_length_name(), spec_dec_of(old(self).payload.spec_raw().len() as int)))
            } else {
                old(self).headers@
            }),
            final(self).headers.wf(),
            r@ == spec_construct_headers(final(self).headers@) + spec_crlf()
                + old(self).payload.spec_raw(),
    {
        let payload_len = self.payload.construct().len();
        if payload_len > 0 {
            let cl_name: Vec<u8> = vec![
                67u8, 111u8, 110u8, 116u8, 101u8, 110u8, 116u8, 45u8, 76u8, 101u8, 110u8, 103u8,
                116u8, 104u8,
            ];
            proof {
                assert(cl_name@ =~= spec_content_length_name());
            }
            let cl_value = dec_of(payload_len);
            self.headers.add(Header::new(cl_name, cl_value));
        }
        let mut out = self.headers.construct();
        out.push(13u8);
        out.push(10u8);
        let body = self.payload.construct();
        append_bytes(&mut out, body);
        proof {
            assert(out@ =~= spec_construct_headers(self.headers@) + spec_crlf()
                + old(self).payload.spec_raw());
        }
        out
    }
}

/// A request as the specification sees it.
pub ghost struct RequestModel {
    pub method: Method,
    pub location: Seq<u8>,
    pub parameters: Seq<ParamPair>,
    pub version: Version,
    pub headers: Seq<HeaderPair>,
    pub payload: PayloadModel,
    pub text: Seq<u8>,
    pub end: int,
}

/// Request parsing at `pos`: headline fields read as method, target and
/// version, then the message; the retained text is the raw headline and
/// header bytes consumed.
pub open spec fn spec_parse_request(input: Seq<u8>, pos: int) -> Result<RequestModel, ParsingError> {
    match spec_parse_headline(input, pos) {
        Err(e) => Err(e),
        Ok((a, b, c, p1)) => match Method::spec_parse(a) {
            None => Err(ParsingError::Method),
            Some(method) => match Version::spec_parse(c) {
                None => Err(ParsingError::Version),
                Some(version) => match spec_parse_message(input, p1, p1 - pos) {
                    Err(e) => Err(e),
                    Ok((hs, pm, hend, end)) => Ok(RequestModel {
                        method,
                        location: spec_parse_target(b).0,
                        parameters: spec_parse_target(b).1,
                        version,
                        headers: hs,
                        payload: pm,
                        text: input.subrange(pos, hend),
                        end,
                    }),
                },
            },
        },
    }
}

/// A parsed or programmatically built request.
pub struct Request {
    pub method: Method,
    pub target: Target,
    pub version: Version,
    pub message: Message,
    pub text: Vec<u8>,
}

impl Request {
    /// The retained raw headline-and-header text.
    pub open spec fn spec_text(&self) -> Seq<u8> {
        self.text@
    }

    /// A fresh GET request for `/` under protocol version 1.1.
    pub fn new() -> (r: Request)
        ensures
            r.method == Method::GET,
            r.version == Version::V11,
            r.target.location@ == seq![47u8],
            r.target.parameters@.len() == 0,
            r.message.headers@ == Seq::<HeaderPair>::empty(),
            r.message.headers.wf(),
            !r.message.payload.spec_is_chunked(),
            r.message.payload.spec_raw() == Seq::<u8>::empty(),
            r.message.payload.wf(),
            r.spec_text() == Seq::<u8>::empty(),
    {
        Request {
            method: Method::GET,
            target: Target::default(),
            version: Version::V11,
            message: Message::new(),
            text: Vec::new(),
        }
    }

    /// Parses one request at `pos` and reports the position after it;
    /// trailing bytes are left unconsumed.
    pub fn parse(input: &Vec<u8>, pos: usize) -> (r: Result<(Request, usize), ParsingError>)
        requires
            pos <= input@.len(),
        ensures
            match r {
                Ok(p) => ({
                    &&& spec_parse_request(input@, pos as int) matches Ok(m)
                        && m.method == p.0.method
                        && m.location == p.0.target.location@
                        && m.parameters == spec_params_view(p.0.target.parameters@)
                        && m.version == p.0.version
                        && m.headers == p.0.message.headers@
                        && m.payload == spec_payload_model(p.0.message.payload)
                        && m.text == p.0.spec_text()
                        && m.end == p.1 as int
                    &&& p.0.message.headers.wf()
                    &&& p.0.message.payload.wf()
                    &&& pos < p.1 <= input@.len()
                }),
                Err(e) => spec_parse_request(input@, pos as int) == Err::<RequestModel, _>(e),
            },
    {
        let (headline, p1) = match Headline::parse(input, pos) {
            Ok(x) => x,
            Err(e) => {
                return Err(e);
            },
        };
        let Headline(first, second, third) = headline;
        let method = match Method::parse(&first) {
            Some(m) => m,
            None => {
                return Err(ParsingError::Method);
            },
        };
        let version = match Version::parse(&third) {
            Some(v) => v,
            None => {
                return Err(ParsingError::Version);
            },
        };
        let target = match Target::parse(&second) {
            Some(t) => t,
            None => {
                return Err(ParsingError::Head);
            },
        };
        let (message, hend, end) = match Message::parse(input, p1, p1 - pos) {
            Ok(x) => x,
            Err(e) => {
                return Err(e);
            },
        };
        let text = subvec(input, pos, hend);
        Ok((Request { method, target, version, message, text }, end))
    }

    /// The retained raw text with a lossy rendering of the payload
    /// bytes appended; diagnostic only.
    pub fn text(&self) -> (r: String)
        ensures
            r@ == spec_lossy(self.text@ + self.message.payload.spec_raw()),
    {
        let mut t = subvec(&self.text, 0, self.text.len());
        append_bytes(&mut t, self.message.payload.raw());
        proof {
            assert(t@ =~= self.text@ + self.message.payload.spec_raw());
        }
        lossy_text(&t)
    }

    /// Renders the request: the headline from method, target and
    /// version, then the message (which may gain a `Content-Length`
    /// header).
    pub fn construct(&mut self) -> (r: Vec<u8>)
        requires
            old(self).message.headers.wf(),
            !old(self).message.payload.spec_is_chunked(),
        ensures
            final(self).method == old(self).method,
            final(self).target == old(self).target,
            final(self).version == old(self).version,
            final(self).spec_text() == old(self).spec_text(),
            final(self).message.payload == old(self).message.payload,
            final(self).message.headers@ == (if old(self).message.payload.spec_raw().len() > 0 {
                spec_store_add(old(self).message.headers@,
                    (spec_content_length_name(),
                        spec_dec_of(old(self).message.payload.spec_raw().len() as int)))
            } else {
                old(self).message.headers@
            }),
            final(self).message.headers.wf(),
            r@ == spec_construct_headline(old(self).method.spec_token(),
                spec_construct_target(old(self).target.location@,
                    spec_params_view(old(self).target.parameters@)),
                old(self).version.spec_token())
                + spec_construct_headers(final(self).message.headers@) + spec_crlf()
                + old(self).message.payload.spec_raw(),
    {
        let m = self.method.format();
        let t = self.target.construct();
        let v = self.version.format();
        let mut out = Headline::construct(&m, &t, &v);
        let body = self.message.construct();
        append_bytes(&mut out, &body);
        out
    }
}

/// A response as the specification sees it.
pub ghost struct ResponseModel {
    pub version: Version,
    pub status: Status,
    pub headers: Seq<HeaderPair>,
    pub payload: PayloadModel,
    pub text: Seq<u8>,
    pub end: int,
}

/// Response parsing at `pos`: headline fields read as version, status
/// code and reason phrase; the reason must be the status's canonical
/// phrase.
pub open spec fn spec_parse_response(input: Seq<u8>, pos: int) -> Result<ResponseModel, ParsingError> {
    match spec_parse_headline(input, pos) {
        Err(e) => Err(e),
        Ok((a, b, c, p1)) => match Status::spec_parse(b) {
            None => Err(ParsingError::Status),
            Some(status) => if c != status.spec_reason() {
                Err(ParsingError::Status)
            } else {
                match Version::spec_parse(a) {
                    None => Err(ParsingError::Version),
                    Some(version) => match spec_parse_message(input, p1, p1 - pos) {
                        Err(e) => Err(e),
                        Ok((hs, pm, hend, end)) => Ok(ResponseModel {
                            version,
                            status,
                            headers: hs,
                            payload: pm,
                            text: input.subrange(pos, hend),
                            end,
                        }),
                    },
                }
            },
        },
    }
}

/// A parsed or programmatically built response.
pub struct Response {
    pub version: Version,
    pub status: Status,
    pub message: Message,
    pub text: Vec<u8>,
}

impl Response {
    /// The retained raw headline-and-header text.
    pub open spec fn spec_text(&self) -> Seq<u8> {
        self.text@
    }

    /// A fresh empty 200 response under protocol version 1.1.
    pub fn new() -> (r: Response)
        ensures
            r.version == Version::V11,
            r.status == Status::Okay,
            r.message.headers@ == Seq::<HeaderPair>::empty(),
            r.message.headers.wf(),
            !r.message.payload.spec_is_chunked(),
            r.message.payload.spec_raw() == Seq::<u8>::empty(),
            r.message.payload.wf(),
            r.spec_text() == Seq::<u8>::empty(),
    {
        Response {
            version: Version::V11,
            status: Status::Okay,
            message: Message::new(),
            text: Vec::new(),
        }
    }

    /// Parses one response at `pos` and reports the position after it;
    /// trailing bytes are left unconsumed.
    pub fn parse(input: &Vec<u8>, pos: usize) -> (r: Result<(Response, usize), ParsingError>)
        requires
            pos <= input@.len(),
        ensures
            match r {
                Ok(p) => ({
                    &&& spec_parse_response(input@, pos as int) matches Ok(m)
                        && m.version == p.0.version
                        && m.status == p.0.status
                        && m.headers == p.0.message.headers@
                        && m.payload == spec_payload_model(p.0.message.payload)
                        && m.text == p.0.spec_text()
                        && m.end == p.1 as int
                    &&& p.0.message.headers.wf()
                    &&& p.0.message.payload.wf()
                    &&& pos < p.1 <= input@.len()
                }),
                Err(e) => spec_parse_response(input@, pos as int) == Err::<ResponseModel, _>(e),
            },
    {
        let (headline, p1) = match Headline::parse(input, pos) {
            Ok(x) => x,
            Err(e) => {
                return Err(e);
            },
        };
        let Headline(first, second, third) = headline;
        let status = match Status::parse(&second) {
            Some(s) => s,
            None => {
                return Err(ParsingError::Status);
            },
        };
        if !status.validate_message(&third) {
            return Err(ParsingError::Status);
        }
        let version = match Version::parse(&first) {
            Some(v) => v,
            None => {
                return Err(ParsingError::Version);
            },
        };
        let (message, hend, end) = match Message::parse(input, p1, p1 - pos) {
            Ok(x) => x,
            Err(e) => {
                return Err(e);
            },
        };
        let text = subvec(input, pos, hend);
        Ok((Response { version, status, message, text }, end))
    }

    /// The retained raw text with a lossy rendering of the payload
    /// bytes appended; diagnostic only.
    pub fn text(&self) -> (r: String)
        ensures
            r@ == spec_lossy(self.text@ + self.message.payload.spec_raw()),
    {
        let mut t = subvec(&self.text, 0, self.text.len());
        append_bytes(&mut t, self.message.payload.raw());
        proof {
            assert(t@ =~= self.text@ + self.message.payload.spec_raw());
        }
        lossy_text(&t)
    }

    /// Renders the response: the headline from version, status code and
    /// canonical reason phrase, then the message (which may gain a
    /// `Content-Length` header).
    pub fn construct(&mut self) -> (r: Vec<u8>)
        requires
            old(self).message.headers.wf(),
            !old(self).message.payload.spec_is_chunked(),
        ensures
            final(self).version == old(self).version,
            final(self).status == old(self).status,
            final(self).spec_text() == old(self).spec_text(),
            final(self).message.payload == old(self).message.payload,
            final(self).message.headers@ == (if old(self).message.payload.spec_raw().len() > 0 {
                spec_store_add(old(self).message.headers@,
                    (spec_content_length_name(),
                        spec_dec_of(old(self).message.payload.spec_raw().len() as int)))
            } else {
                old(self).message.headers@
            }),
            final(self).message.headers.wf(),
            r@ == spec_construct_headline(old(self).version.spec_token(),
                old(self).status.spec_code(), old(self).status.spec_reason())
                + spec_construct_headers(final(self).message.headers@) + spec_crlf()
                + old(self).message.payload.spec_raw(),
    {
        let v = self.version.format();
        let s = self.status.format();
        let reason = self.status.message();
        let mut out = Headline::construct(&v, &s, &reason);
        let body = self.message.construct();
        append_bytes(&mut out, &body);
        out
    }
}

} // verus!
