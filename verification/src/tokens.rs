//! The token registry: closed protocol vocabularies with bidirectional
//! text mapping.  Every type parses by case-insensitive exact match
//! against its fixed token table and formats back to the one canonical
//! token; unknown text yields no value.
use vstd::prelude::*;
use crate::bytes::{spec_lower, spec_upper, lower, upper, bytes_eq, spec_split, split};

verus! {

/// A type that parses from one token of wire text.
pub trait Parsable: Sized {
    /// What parsing yields on a given token.
    spec fn spec_parse(s: Seq<u8>) -> Option<Self>;

    /// Parses one token; unknown text yields `None`.
    fn parse(value: &Vec<u8>) -> (r: Option<Self>)
        ensures
            r == Self::spec_parse(value@),
    ;
}

/// Values parsed from a delimiter-separated list, in order of
/// appearance; unrecognized tokens are silently dropped.
pub open spec fn spec_parse_list<T: Parsable>(parts: Seq<Seq<u8>>) -> Seq<T>
    decreases parts.len(),
{
    if parts.len() == 0 {
        Seq::empty()
    } else {
        let rest = spec_parse_list::<T>(parts.drop_first());
        match T::spec_parse(parts.first()) {
            Some(t) => seq![t] + rest,
            None => rest,
        }
    }
}

/// Splits `values` on `d` and parses each part, silently dropping the
/// parts that are not recognized.
pub fn parse_list<T: Parsable>(values: &Vec<u8>, d: u8) -> (r: Vec<T>)
    ensures
        r@ == spec_parse_list::<T>(spec_split(values@, d)),
{
    let parts = split(values, d);
    let ghost all = parts.deep_view();
    let mut out: Vec<T> = Vec::new();
    let mut i: usize = 0;
    proof {
        assert(all.skip(0) =~= all);
        assert(out@ + spec_parse_list::<T>(all) =~= spec_parse_list::<T>(all));
    }
    while i < parts.len()
        invariant
            i <= parts@.len(),
            all == parts.deep_view(),
            spec_parse_list::<T>(all) == out@ + spec_parse_list::<T>(all.skip(i as int)),
        decreases parts.len() - i,
    {
        proof {
            assert(all.skip(i as int).first() == all[i as int]);
            assert(all.skip(i as int).drop_first() =~= all.skip(i + 1));
            assert(all[i as int] == parts@[i as int]@);
        }
        match T::parse(&parts[i]) {
            Some(t) => {
                out.push(t);
            },
            None => {},
        }
        proof {
            assert(spec_parse_list::<T>(all) =~= out@ + spec_parse_list::<T>(all.skip(i + 1)));
        }
        i = i + 1;
    }
    proof {
        assert(all.skip(all.len() as int) =~= Seq::<Seq<u8>>::empty());
        assert(spec_parse_list::<T>(all) =~= out@);
    }
    out
}

/// A type whose values render into one canonical header line.
pub trait ToHeader: Parsable + Copy {
    /// The normalized (lower-case) header name this type lives under.
    spec fn spec_normalized() -> Seq<u8>;

    /// The canonical token of one value.
    spec fn spec_value(&self) -> Seq<u8>;

    /// The normalized header name.
    fn normalized() -> (r: Vec<u8>)
        ensures
            r@ == Self::spec_normalized(),
    ;

    /// The canonical token of this value.
    fn value(&self) -> (r: Vec<u8>)
        ensures
            r@ == self.spec_value(),
    ;

    /// Whether the header may carry a delimiter-separated list.
    fn is_multi() -> (r: bool);

    /// The list delimiter.
    fn delimiter() -> (r: u8)
        ensures
            r == 44u8,
    ;

    /// Parses a delimiter-separated list of values, silently dropping
    /// unrecognized tokens.
    fn parse_many(values: &Vec<u8>) -> (r: Vec<Self>)
        ensures
            r@ == spec_parse_list::<Self>(spec_split(values@, 44u8)),
    ;
}

/// The request methods the engine knows.
#[derive(Clone, Copy, Debug, PartialEq, Eq, Structural)]
pub enum Method {
    GET,
    POST,
}

impl Method {
    /// The canonical token of this method.
    pub open spec fn spec_token(self) -> Seq<u8> {
        match self {
            Method::GET => seq![71u8, 69u8, 84u8],
            Method::POST => seq![80u8, 79u8, 83u8, 84u8],
        }
    }

    /// Case-insensitive exact match against the method table.
    pub open spec fn spec_parse(s: Seq<u8>) -> Option<Method> {
        if spec_upper(s) == Method::GET.spec_token() {
            Some(Method::GET)
        } else if spec_upper(s) == Method::POST.spec_token() {
            Some(Method::POST)
        } else {
            None
        }
    }

    /// Parses a method token, ignoring case.
    pub fn parse(method: &Vec<u8>) -> (r: Option<Method>)
        ensures
            r == Method::spec_parse(method@),
    {
        let u = upper(method);
        let g: Vec<u8> = vec![71u8, 69u8, 84u8];
        proof {
            assert(g@ =~= Method::GET.spec_token());
        }
        if bytes_eq(&u, &g) {
            return Some(Method::GET);
        }
        let p: Vec<u8> = vec![80u8, 79u8, 83u8, 84u8];
        proof {
            assert(p@ =~= Method::POST.spec_token());
        }
        if bytes_eq(&u, &p) {
            return Some(Method::POST);
        }
        None
    }

    /// The canonical token of this method.
    pub fn format(&self) -> (r: Vec<u8>)
        ensures
            r@ == self.spec_token(),
    {
        match self {
            Method::GET => {
                let v: Vec<u8> = vec![71u8, 69u8, 84u8];
                proof {
                    assert(v@ =~= Method::GET.spec_token());
                }
                v
            },
            Method::POST => {
                let v: Vec<u8> = vec![80u8, 79u8, 83u8, 84u8];
                proof {
                    assert(v@ =~= Method::POST.spec_token());
                }
                v
            },
        }
    }
}

/// A method's canonical token parses back to the method.
pub proof fn lemma_method_round_trip(m: Method)
    ensures
        Method::spec_parse(m.spec_token()) == Some(m),
{
    assert(spec_upper(Method::GET.spec_token()) =~= Method::GET.spec_token());
    assert(spec_upper(Method::POST.spec_token()) =~= Method::POST.spec_token());
    assert(Method::POST.spec_token() != Method::GET.spec_token());
}

/// The protocol versions the engine knows.
#[derive(Clone, Copy, Debug, PartialEq, Eq, Structural)]
pub enum Version {
    V1,
    V11,
    V2,
}

impl Version {
    /// The canonical token of this version.
    pub open spec fn spec_token(self) -> Seq<u8> {
        match self {
            Version::V1 => seq![72u8, 84u8, 84u8, 80u8, 47u8, 49u8, 46u8, 48u8],
            Version::V11 => seq![72u8, 84u8, 84u8, 80u8, 47u8, 49u8, 46u8, 49u8],
            Version::V2 => seq![72u8, 84u8, 84u8, 80u8, 47u8, 50u8, 46u8, 48u8],
        }
    }

    /// Case-insensitive exact match against the version table.
    pub open spec fn spec_parse(s: Seq<u8>) -> Option<Version> {
        if spec_upper(s) == Version::V1.spec_token() {
            Some(Version::V1)
        } else if spec_upper(s) == Version::V11.spec_token() {
            Some(Version::V11)
        } else if spec_upper(s) == Version::V2.spec_token() {
            Some(Version::V2)
        } else {
            None
        }
    }

    /// Parses a version token, ignoring case.
    pub fn parse(version: &Vec<u8>) -> (r: Option<Version>)
        ensures
            r == Version::spec_parse(version@),
    {
        let u = upper(version);
        let v1: Vec<u8> = vec![72u8, 84u8, 84u8, 80u8, 47u8, 49u8, 46u8, 48u8];
        proof {
            assert(v1@ =~= Version::V1.spec_token());
        }
        if bytes_eq(&u, &v1) {
            return Some(Version::V1);
        }
        let v11: Vec<u8> = vec![72u8, 84u8, 84u8, 80u8, 47u8, 49u8, 46u8, 49u8];
        proof {
            assert(v11@ =~= Version::V11.spec_token());
        }
        if bytes_eq(&u, &v11) {
            return Some(Version::V11);
        }
        let v2: Vec<u8> = vec![72u8, 84u8, 84u8, 80u8, 47u8, 50u8, 46u8, 48u8];
        proof {
            assert(v2@ =~= Version::V2.spec_token());
        }
        if bytes_eq(&u, &v2) {
            return Some(Version::V2);
        }
        None
    }

    /// The canonical token of this version.
    pub fn format(&self) -> (r: Vec<u8>)
        ensures
            r@ == self.spec_token(),
    {
        match self {
            Version::V1 => {
                let v: Vec<u8> = vec![72u8, 84u8, 84u8, 80u8, 47u8, 49u8, 46u8, 48u8];
                proof {
                    assert(v@ =~= Version::V1.spec_token());
                }
                v
            },
            Version::V11 => {
                let v: Vec<u8> = vec![72u8, 84u8, 84u8, 80u8, 47u8, 49u8, 46u8, 49u8];
                proof {
                    assert(v@ =~= Version::V11.spec_token());
                }
                v
            },
            Version::V2 => {
                let v: Vec<u8> = vec![72u8, 84u8, 84u8, 80u8, 47u8, 50u8, 46u8, 48u8];
                proof {
                    assert(v@ =~= Version::V2.spec_token());
                }
                v
            },
        }
    }
}

/// A version's canonical token parses back to the version.
pub proof fn lemma_version_round_trip(v: Version)
    ensures
        Version::spec_parse(v.spec_token()) == Some(v),
{
    assert(spec_upper(Version::V1.spec_token()) =~= Version::V1.spec_token());
    assert(spec_upper(Version::V11.spec_token()) =~= Version::V11.spec_token());
    assert(spec_upper(Version::V2.spec_token()) =~= Version::V2.spec_token());
    assert(Version::V11.spec_token() != Version::V1.spec_token());
    assert(Version::V2.spec_token() != Version::V1.spec_token());
    assert(Version::V2.spec_token() != Version::V11.spec_token());
}

/// The response statuses the engine knows.
#[derive(Clone, Copy, Debug, PartialEq, Eq, Structural)]
pub enum Status {
    Okay,
    NotFound,
    MovedPermanently,
}

impl Status {
    /// The canonical code digits of this status.
    pub open spec fn spec_code(self) -> Seq<u8> {
        match self {
            Status::Okay => seq![50u8, 48u8, 48u8],
            Status::NotFound => seq![52u8, 48u8, 52u8],
            Status::MovedPermanently => seq![51u8, 48u8, 49u8],
        }
    }

    /// The canonical reason phrase of this status.
    pub open spec fn spec_reason(self) -> Seq<u8> {
        match self {
            Status::Okay => seq![79u8, 75u8],
            Status::NotFound => seq![78u8, 111u8, 116u8, 32u8, 70u8, 111u8, 117u8, 110u8, 100u8],
            Status::MovedPermanently => seq![
                77u8, 111u8, 118u8, 101u8, 100u8, 32u8, 80u8, 101u8, 114u8, 109u8, 97u8, 110u8,
                101u8, 110u8, 116u8, 108u8, 121u8,
            ],
        }
    }

    /// Exact match against the status-code table.
    pub open spec fn spec_parse(s: Seq<u8>) -> Option<Status> {
        if s == Status::Okay.spec_code() {
            Some(Status::Okay)
        } else if s == Status::NotFound.spec_code() {
            Some(Status::NotFound)
        } else if s == Status::MovedPermanently.spec_code() {
            Some(Status::MovedPermanently)
        } else {
            None
        }
    }

    /// Parses a status code.
    pub fn parse(status: &Vec<u8>) -> (r: Option<Status>)
        ensures
            r == Status::spec_parse(status@),
    {
        let ok: Vec<u8> = vec![50u8, 48u8, 48u8];
        proof {
            assert(ok@ =~= Status::Okay.spec_code());
        }
        if bytes_eq(status, &ok) {
            return Some(Status::Okay);
        }
        let nf: Vec<u8> = vec![52u8, 48u8, 52u8];
        proof {
            assert(nf@ =~= Status::NotFound.spec_code());
        }
        if bytes_eq(status, &nf) {
            return Some(Status::NotFound);
        }
        let mp: Vec<u8> = vec![51u8, 48u8, 49u8];
        proof {
            assert(mp@ =~= Status::MovedPermanently.spec_code());
        }
        if bytes_eq(status, &mp) {
            return Some(Status::MovedPermanently);
        }
        None
    }

    /// The canonical code digits of this status.
    pub fn format(&self) -> (r: Vec<u8>)
        ensures
            r@ == self.spec_code(),
    {
        match self {
            Status::Okay => {
                let v: Vec<u8> = vec![50u8, 48u8, 48u8];
                proof {
                    assert(v@ =~= Status::Okay.spec_code());
                }
                v
            },
            Status::NotFound => {
                let v: Vec<u8> = vec![52u8, 48u8, 52u8];
                proof {
                    assert(v@ =~= Status::NotFound.spec_code());
                }
                v
            },
            Status::MovedPermanently => {
                let v: Vec<u8> = vec![51u8, 48u8, 49u8];
                proof {
                    assert(v@ =~= Status::MovedPermanently.spec_code());
                }
                v
            },
        }
    }

    /// The canonical reason phrase of this status.
    pub fn message(&self) -> (r: Vec<u8>)
        ensures
            r@ == self.spec_reason(),
    {
        match self {
            Status::Okay => {
                let v: Vec<u8> = vec![79u8, 75u8];
                proof {
                    assert(v@ =~= Status::Okay.spec_reason());
                }
                v
            },
            Status::NotFound => {
                let v: Vec<u8> = vec![78u8, 111u8, 116u8, 32u8, 70u8, 111u8, 117u8, 110u8, 100u8];
                proof {
                    assert(v@ =~= Status::NotFound.spec_reason());
                }
                v
            },
            Status::MovedPermanently => {
                let v: Vec<u8> = vec![
                    77u8, 111u8, 118u8, 101u8, 100u8, 32u8, 80u8, 101u8, 114u8, 109u8, 97u8, 110u8,
                    101u8, 110u8, 116u8, 108u8, 121u8,
                ];
                proof {
                    assert(v@ =~= Status::MovedPermanently.spec_reason());
                }
                v
            },
        }
    }

    /// Whether `message` is this status's canonical reason phrase.
    pub fn validate_message(&self, message: &Vec<u8>) -> (r: bool)
        ensures
            r == (message@ == self.spec_reason()),
    {
        let reason = self.message();
        bytes_eq(message, &reason)
    }
}

/// A status's canonical code parses back to the status.
pub proof fn lemma_status_round_trip(s: Status)
    ensures
        Status::spec_parse(s.spec_code()) == Some(s),
{
    assert(Status::NotFound.spec_code() != Status::Okay.spec_code());
    assert(Status::MovedPermanently.spec_code() != Status::Okay.spec_code());
    assert(Status::MovedPermanently.spec_code() != Status::NotFound.spec_code());
}

/// The content codings the engine knows.
#[derive(Clone, Copy, Debug, PartialEq, Eq, Structural)]
pub enum Encoding {
    GZip,
    Deflate,
    Brotli,
}

impl Encoding {
    /// The canonical token of this coding.
    pub open spec fn spec_token(self) -> Seq<u8> {
        match self {
            Encoding::GZip => seq![103u8, 122u8, 105u8, 112u8],
            Encoding::Deflate => seq![100u8, 101u8, 102u8, 108u8, 97u8, 116u8, 101u8],
            Encoding::Brotli => seq![98u8, 114u8],
        }
    }
}

impl Parsable for Encoding {
    open spec fn spec_parse(s: Seq<u8>) -> Option<Encoding> {
        if spec_lower(s) == Encoding::GZip.spec_token() {
            Some(Encoding::GZip)
        } else if spec_lower(s) == Encoding::Deflate.spec_token() {
            Some(Encoding::Deflate)
        } else if spec_lower(s) == Encoding::Brotli.spec_token() {
            Some(Encoding::Brotli)
        } else {
            None
        }
    }

    fn parse(value: &Vec<u8>) -> (r: Option<Encoding>) {
        let l = lower(value);
        let gz: Vec<u8> = vec![103u8, 122u8, 105u8, 112u8];
        proof {
            assert(gz@ =~= Encoding::GZip.spec_token());
        }
        if bytes_eq(&l, &gz) {
            return Some(Encoding::GZip);
        }
        let df: Vec<u8> = vec![100u8, 101u8, 102u8, 108u8, 97u8, 116u8, 101u8];
        proof {
            assert(df@ =~= Encoding::Deflate.spec_token());
        }
        if bytes_eq(&l, &df) {
            return Some(Encoding::Deflate);
        }
        let br: Vec<u8> = vec![98u8, 114u8];
        proof {
            assert(br@ =~= Encoding::Brotli.spec_token());
        }
        if bytes_eq(&l, &br) {
            return Some(Encoding::Brotli);
        }
        None
    }
}

impl ToHeader for Encoding {
    open spec fn spec_normalized() -> Seq<u8> {
        seq![
            99u8, 111u8, 110u8, 116u8, 101u8, 110u8, 116u8, 45u8, 101u8, 110u8, 99u8, 111u8,
            100u8, 105u8, 110u8, 103u8,
        ]
    }

    open spec fn spec_value(&self) -> Seq<u8> {
        self.spec_token()
    }

    fn normalized() -> (r: Vec<u8>) {
        let v: Vec<u8> = vec![
            99u8, 111u8, 110u8, 116u8, 101u8, 110u8, 116u8, 45u8, 101u8, 110u8, 99u8, 111u8,
            100u8, 105u8, 110u8, 103u8,
        ];
        proof {
            assert(v@ =~= Self::spec_normalized());
        }
        v
    }

    fn value(&self) -> (r: Vec<u8>) {
        match self {
            Encoding::GZip => {
                let v: Vec<u8> = vec![103u8, 122u8, 105u8, 112u8];
                proof {
                    assert(v@ =~= Encoding::GZip.spec_token());
                }
                v
            },
            Encoding::Deflate => {
                let v: Vec<u8> = vec![100u8, 101u8, 102u8, 108u8, 97u8, 116u8, 101u8];
                proof {
                    assert(v@ =~= Encoding::Deflate.spec_token());
                }
                v
            },
            Encoding::Brotli => {
                let v: Vec<u8> = vec![98u8, 114u8];
                proof {
                    assert(v@ =~= Encoding::Brotli.spec_token());
                }
                v
            },
        }
    }

    fn is_multi() -> (r: bool) {
        true
    }

    fn delimiter() -> (r: u8) {
        44u8
    }

    fn parse_many(values: &Vec<u8>) -> (r: Vec<Encoding>) {
        parse_list::<Encoding>(values, 44u8)
    }
}

/// A coding's canonical token parses back to the coding.
pub proof fn lemma_encoding_round_trip(e: Encoding)
    ensures
        Encoding::spec_parse(e.spec_token()) == Some(e),
{
    assert(spec_lower(Encoding::GZip.spec_token()) =~= Encoding::GZip.spec_token());
    assert(spec_lower(Encoding::Deflate.spec_token()) =~= Encoding::Deflate.spec_token());
    assert(spec_lower(Encoding::Brotli.spec_token()) =~= Encoding::Brotli.spec_token());
    assert(Encoding::Deflate.spec_token() != Encoding::GZip.spec_token());
    assert(Encoding::Brotli.spec_token() != Encoding::GZip.spec_token());
    assert(Encoding::Brotli.spec_token() != Encoding::Deflate.spec_token());
}

/// The content types the engine knows.
#[derive(Clone, Copy, Debug, PartialEq, Eq, Structural)]
pub enum ContentType {
    HTML,
}

impl ContentType {
    /// The canonical token of this content type.
    pub open spec fn spec_token(self) -> Seq<u8> {
        match self {
            ContentType::HTML => seq![116u8, 101u8, 120u8, 116u8, 47u8, 104u8, 116u8, 109u8, 108u8],
        }
    }

    /// Maps a file extension, ignoring case, to a content type.
    pub open spec fn spec_from_extension(s: Seq<u8>) -> Option<ContentType> {
        if spec_lower(s) == seq![104u8, 116u8, 109u8, 108u8] {
            Some(ContentType::HTML)
        } else {
            None
        }
    }

    /// Maps a file extension to a content type.
    pub fn from_extension(extension: &Vec<u8>) -> (r: Option<ContentType>)
        ensures
            r == ContentType::spec_from_extension(extension@),
    {
        let l = lower(extension);
        let html: Vec<u8> = vec![104u8, 116u8, 109u8, 108u8];
        proof {
            assert(html@ =~= seq![104u8, 116u8, 109u8, 108u8]);
        }
        if bytes_eq(&l, &html) {
            return Some(ContentType::HTML);
        }
        None
    }
}

impl Parsable for ContentType {
    open spec fn spec_parse(s: Seq<u8>) -> Option<ContentType> {
        if spec_lower(s) == ContentType::HTML.spec_token() {
            Some(ContentType::HTML)
        } else {
            None
        }
    }

    fn parse(value: &Vec<u8>) -> (r: Option<ContentType>) {
        let l = lower(value);
        let html: Vec<u8> = vec![116u8, 101u8, 120u8, 116u8, 47u8, 104u8, 116u8, 109u8, 108u8];
        proof {
            assert(html@ =~= ContentType::HTML.spec_token());
        }
        if bytes_eq(&l, &html) {
            return Some(ContentType::HTML);
        }
        None
    }
}

impl ToHeader for ContentType {
    open spec fn spec_normalized() -> Seq<u8> {
        seq![99u8, 111u8, 110u8, 116u8, 101u8, 110u8, 116u8, 45u8, 116u8, 121u8, 112u8, 101u8]
    }

    open spec fn spec_value(&self) -> Seq<u8> {
        self.spec_token()
    }

    fn normalized() -> (r: Vec<u8>) {
        let v: Vec<u8> = vec![
            99u8, 111u8, 110u8, 116u8, 101u8, 110u8, 116u8, 45u8, 116u8, 121u8, 112u8, 101u8,
        ];
        proof {
            assert(v@ =~= Self::spec_normalized());
        }
        v
    }

    fn value(&self) -> (r: Vec<u8>) {
        let v: Vec<u8> = vec![116u8, 101u8, 120u8, 116u8, 47u8, 104u8, 116u8, 109u8, 108u8];
        proof {
            assert(v@ =~= ContentType::HTML.spec_token());
        }
        v
    }

    fn is_multi() -> (r: bool) {
        true
    }

    fn delimiter() -> (r: u8) {
        44u8
    }

    fn parse_many(values: &Vec<u8>) -> (r: Vec<ContentType>) {
        parse_list::<ContentType>(values, 44u8)
    }
}

/// The transfer codings the engine knows.
#[derive(Clone, Copy, Debug, PartialEq, Eq, Structural)]
pub enum TransferEncoding {
    Chunked,
    Identity,
}

impl TransferEncoding {
    /// The canonical token of this transfer coding.
    pub open spec fn spec_token(self) -> Seq<u8> {
        match self {
            TransferEncoding::Chunked => seq![99u8, 104u8, 117u8, 110u8, 107u8, 101u8, 100u8],
            TransferEncoding::Identity => seq![
                105u8, 100u8, 101u8, 110u8, 116u8, 105u8, 116u8, 121u8,
            ],
        }
    }
}

impl Parsable for TransferEncoding {
    open spec fn spec_parse(s: Seq<u8>) -> Option<TransferEncoding> {
        if spec_lower(s) == TransferEncoding::Chunked.spec_token() {
            Some(TransferEncoding::Chunked)
        } else if spec_lower(s) == TransferEncoding::Identity.spec_token() {
            Some(TransferEncoding::Identity)
        } else {
            None
        }
    }

    fn parse(value: &Vec<u8>) -> (r: Option<TransferEncoding>) {
        let l = lower(value);
        let ch: Vec<u8> = vec![99u8, 104u8, 117u8, 110u8, 107u8, 101u8, 100u8];
        proof {
            assert(ch@ =~= TransferEncoding::Chunked.spec_token());
        }
        if bytes_eq(&l, &ch) {
            return Some(TransferEncoding::Chunked);
        }
        let id: Vec<u8> = vec![105u8, 100u8, 101u8, 110u8, 116u8, 105u8, 116u8, 121u8];
        proof {
            assert(id@ =~= TransferEncoding::Identity.spec_token());
        }
        if bytes_eq(&l, &id) {
            return Some(TransferEncoding::Identity);
        }
        None
    }
}

impl ToHeader for TransferEncoding {
    open spec fn spec_normalized() -> Seq<u8> {
        seq![
            116u8, 114u8, 97u8, 110u8, 115u8, 102u8, 101u8, 114u8, 45u8, 101u8, 110u8, 99u8,
            111u8, 100u8, 105u8, 110u8, 103u8,
        ]
    }

    open spec fn spec_value(&self) -> Seq<u8> {
        self.spec_token()
    }

    fn normalized() -> (r: Vec<u8>) {
        let v: Vec<u8> = vec![
            116u8, 114u8, 97u8, 110u8, 115u8, 102u8, 101u8, 114u8, 45u8, 101u8, 110u8, 99u8,
            111u8, 100u8, 105u8, 110u8, 103u8,
        ];
        proof {
            assert(v@ =~= Self::spec_normalized());
        }
        v
    }

    fn value(&self) -> (r: Vec<u8>) {
        match self {
            TransferEncoding::Chunked => {
                let v: Vec<u8> = vec![99u8, 104u8, 117u8, 110u8, 107u8, 101u8, 100u8];
                proof {
                    assert(v@ =~= TransferEncoding::Chunked.spec_token());
                }
                v
            },
            TransferEncoding::Identity => {
                let v: Vec<u8> = vec![105u8, 100u8, 101u8, 110u8, 116u8, 105u8, 116u8, 121u8];
                proof {
                    assert(v@ =~= TransferEncoding::Identity.spec_token());
                }
                v
            },
        }
    }

    fn is_multi() -> (r: bool) {
        false
    }

    fn delimiter() -> (r: u8) {
        44u8
    }

    fn parse_many(values: &Vec<u8>) -> (r: Vec<TransferEncoding>) {
        parse_list::<TransferEncoding>(values, 44u8)
    }
}

/// The schemes the engine knows.
#[derive(Clone, Copy, Debug, PartialEq, Eq, Structural)]
pub enum Protocol {
    Http,
    Https,
}

impl Protocol {
    /// The canonical token of this scheme.
    pub open spec fn spec_token(self) -> Seq<u8> {
        match self {
            Protocol::Http => seq![104u8, 116u8, 116u8, 112u8],
            Protocol::Https => seq![104u8, 116u8, 116u8, 112u8, 115u8],
        }
    }

    /// The canonical token of this scheme.
    pub fn as_str(&self) -> (r: Vec<u8>)
        ensures
            r@ == self.spec_token(),
    {
        match self {
            Protocol::Http => {
                let v: Vec<u8> = vec![104u8, 116u8, 116u8, 112u8];
                proof {
                    assert(v@ =~= Protocol::Http.spec_token());
                }
                v
            },
            Protocol::Https => {
                let v: Vec<u8> = vec![104u8, 116u8, 116u8, 112u8, 115u8];
                proof {
                    assert(v@ =~= Protocol::Https.spec_token());
                }
                v
            },
        }
    }
}

impl Parsable for Protocol {
    open spec fn spec_parse(s: Seq<u8>) -> Option<Protocol> {
        if spec_lower(s) == Protocol::Http.spec_token() {
            Some(Protocol::Http)
        } else if spec_lower(s) == Protocol::Https.spec_token() {
            Some(Protocol::Https)
        } else {
            None
        }
    }

    fn parse(value: &Vec<u8>) -> (r: Option<Protocol>) {
        let l = lower(value);
        let http: Vec<u8> = vec![104u8, 116u8, 116u8, 112u8];
        proof {
            assert(http@ =~= Protocol::Http.spec_token());
        }
        if bytes_eq(&l, &http) {
            return Some(Protocol::Http);
        }
        let https: Vec<u8> = vec![104u8, 116u8, 116u8, 112u8, 115u8];
        proof {
            assert(https@ =~= Protocol::Https.spec_token());
        }
        if bytes_eq(&l, &https) {
            return Some(Protocol::Https);
        }
        None
    }
}

/// The connection directives the engine knows.
#[derive(Clone, Copy, Debug, PartialEq, Eq, Structural)]
pub enum Connection {
    Close,
    KeepAlive,
}

impl Connection {
    /// The canonical token of this directive.
    pub open spec fn spec_token(self) -> Seq<u8> {
        match self {
            Connection::Close => seq![99u8, 108u8, 111u8, 115u8, 101u8],
            Connection::KeepAlive => seq![
                107u8, 101u8, 101u8, 112u8, 45u8, 97u8, 108u8, 105u8, 118u8, 101u8,
            ],
        }
    }
}

impl Parsable for Connection {
    open spec fn spec_parse(s: Seq<u8>) -> Option<Connection> {
        if spec_lower(s) == Connection::Close.spec_token() {
            Some(Connection::Close)
        } else if spec_lower(s) == Connection::KeepAlive.spec_token() {
            Some(Connection::KeepAlive)
        } else {
            None
        }
    }

    fn parse(value: &Vec<u8>) -> (r: Option<Connection>) {
        let l = lower(value);
        let cl: Vec<u8> = vec![99u8, 108u8, 111u8, 115u8, 101u8];
        proof {
            assert(cl@ =~= Connection::Close.spec_token());
        }
        if bytes_eq(&l, &cl) {
            return Some(Connection::Close);
        }
        let ka: Vec<u8> = vec![107u8, 101u8, 101u8, 112u8, 45u8, 97u8, 108u8, 105u8, 118u8, 101u8];
        proof {
            assert(ka@ =~= Connection::KeepAlive.spec_token());
        }
        if bytes_eq(&l, &ka) {
            return Some(Connection::KeepAlive);
        }
        None
    }
}

impl ToHeader for Connection {
    open spec fn spec_normalized() -> Seq<u8> {
        seq![99u8, 111u8, 110u8, 110u8, 101u8, 99u8, 116u8, 105u8, 111u8, 110u8]
    }

    open spec fn spec_value(&self) -> Seq<u8> {
        self.spec_token()
    }

    fn normalized() -> (r: Vec<u8>) {
        let v: Vec<u8> = vec![99u8, 111u8, 110u8, 110u8, 101u8, 99u8, 116u8, 105u8, 111u8, 110u8];
        proof {
            assert(v@ =~= Self::spec_normalized());
        }
        v
    }

    fn value(&self) -> (r: Vec<u8>) {
        match self {
            Connection::Close => {
                let v: Vec<u8> = vec![99u8, 108u8, 111u8, 115u8, 101u8];
                proof {
                    assert(v@ =~= Connection::Close.spec_token());
                }
                v
            },
            Connection::KeepAlive => {
                let v: Vec<u8> = vec![
                    107u8, 101u8, 101u8, 112u8, 45u8, 97u8, 108u8, 105u8, 118u8, 101u8,
                ];
                proof {
                    assert(v@ =~= Connection::KeepAlive.spec_token());
                }
                v
            },
        }
    }

    fn is_multi() -> (r: bool) {
        true
    }

    fn delimiter() -> (r: u8) {
        44u8
    }

    fn parse_many(values: &Vec<u8>) -> (r: Vec<Connection>) {
        parse_list::<Connection>(values, 44u8)
    }
}

/// The unified error taxonomy of every parse or construct operation.
#[derive(Clone, Copy, Debug, PartialEq, Eq, Structural)]
pub enum ParsingError {
    Method,
    Version,
    Encoding,
    ContentType,
    Status,
    Head,
    Header,
    Payload,
    Empty,
    Capacity,
    IO,
}

} // verus!
