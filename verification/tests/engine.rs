use http_engine::bytes::{lower, upper, split, parse_dec, parse_hex, dec_of};
use http_engine::tokens::{Method, Version, Status, Encoding, ContentType, TransferEncoding, Protocol, Connection, Parsable, ToHeader, ParsingError};
use http_engine::wire::{Header, Headers, Headline};
use http_engine::payload::{Payload, Encodings};
use http_engine::message::{Request, Response};
use http_engine::uri::{Parameter, Target, Address, Uri};
use http_engine::http::{Http, RedirectAction, REDIRECT_LIMIT};

#[test]
fn it_works() {
    assert_eq!(2 + 2, 4);
}

#[test]
fn method_tokens_parse_case_insensitively() {
    assert_eq!(Method::parse(&b"GET".to_vec()), Some(Method::GET));
    assert_eq!(Method::parse(&b"get".to_vec()), Some(Method::GET));
    assert_eq!(Method::parse(&b"pOsT".to_vec()), Some(Method::POST));
    assert_eq!(Method::parse(&b"PATCH".to_vec()), None);
    assert_eq!(Method::GET.format(), b"GET".to_vec());
}

#[test]
fn version_tokens_parse_case_insensitively() {
    assert_eq!(Version::parse(&b"HTTP/1.1".to_vec()), Some(Version::V11));
    assert_eq!(Version::parse(&b"HTTP/1.0".to_vec()), Some(Version::V1));
    assert_eq!(Version::parse(&b"HTTP/2.0".to_vec()), Some(Version::V2));
    assert_eq!(Version::parse(&b"http/1.1".to_vec()), Some(Version::V11));
    assert_eq!(Version::parse(&b"HTTP/9.9".to_vec()), None);
    assert_eq!(Version::V11.format(), b"HTTP/1.1".to_vec());
}

#[test]
fn status_tokens_parse_and_validate() {
    assert_eq!(Status::parse(&b"200".to_vec()), Some(Status::Okay));
    assert_eq!(Status::parse(&b"404".to_vec()), Some(Status::NotFound));
    assert_eq!(Status::parse(&b"301".to_vec()), Some(Status::MovedPermanently));
    assert_eq!(Status::parse(&b"500".to_vec()), None);
    assert_eq!(Status::NotFound.message(), b"Not Found".to_vec());
    assert!(Status::Okay.validate_message(&b"OK".to_vec()));
    assert!(!Status::Okay.validate_message(&b"ok".to_vec()));
}

#[test]
fn coding_list_drops_unknown_tokens() {
    let list: Vec<Encoding> = Encoding::parse_many(&b"gzip,unknown,br".to_vec());
    assert_eq!(list, vec![Encoding::GZip, Encoding::Brotli]);
    let empty: Vec<Encoding> = Encoding::parse_many(&b"zstd".to_vec());
    assert_eq!(empty, vec![]);
    assert_eq!(Encoding::parse(&b"DEFLATE".to_vec()), Some(Encoding::Deflate));
}

#[test]
fn other_token_tables() {
    assert_eq!(ContentType::parse(&b"TEXT/HTML".to_vec()), Some(ContentType::HTML));
    assert_eq!(ContentType::from_extension(&b"HTML".to_vec()), Some(ContentType::HTML));
    assert_eq!(ContentType::from_extension(&b"css".to_vec()), None);
    assert!(matches!(TransferEncoding::parse(&b"Chunked".to_vec()), Some(TransferEncoding::Chunked)));
    assert!(matches!(TransferEncoding::parse(&b"identity".to_vec()), Some(TransferEncoding::Identity)));
    assert!(matches!(Protocol::parse(&b"https".to_vec()), Some(Protocol::Https)));
    assert!(matches!(Connection::parse(&b"Keep-Alive".to_vec()), Some(Connection::KeepAlive)));
    assert_eq!(Protocol::Https.as_str(), b"https".to_vec());
}

#[test]
fn byte_helpers() {
    assert_eq!(lower(&b"AbC-12".to_vec()), b"abc-12".to_vec());
    assert_eq!(upper(&b"AbC-12".to_vec()), b"ABC-12".to_vec());
    assert_eq!(split(&b"a,b,,c".to_vec(), b','), vec![b"a".to_vec(), b"b".to_vec(), b"".to_vec(), b"c".to_vec()]);
    assert_eq!(parse_dec(&b"1234".to_vec()), Some(1234));
    assert_eq!(parse_dec(&b"12x".to_vec()), None);
    assert_eq!(parse_dec(&b"".to_vec()), None);
    assert_eq!(parse_hex(&b"1A".to_vec()), Some(26));
    assert_eq!(parse_hex(&b"wiki".to_vec()), None);
    assert_eq!(dec_of(10250), b"10250".to_vec());
}

#[test]
fn header_line_parsing_is_lenient() {
    let h = Header::parse(&b"Content-Type: text/html".to_vec()).unwrap();
    assert_eq!(h.name, b"Content-Type".to_vec());
    assert_eq!(h.value, b"text/html".to_vec());
    // no colon: skipped, not an error
    assert!(Header::parse(&b"no colon here".to_vec()).is_none());
    // colon as last character: skipped
    assert!(Header::parse(&b"Name:".to_vec()).is_none());
    // empty name is allowed
    let anon = Header::parse(&b": v".to_vec()).unwrap();
    assert_eq!(anon.name, b"".to_vec());
    assert_eq!(anon.value, b"v".to_vec());
    assert_eq!(h.construct(), b"Content-Type: text/html".to_vec());
}

#[test]
fn header_lookup_is_case_insensitive() {
    let mut headers = Headers::new();
    headers.add(Header::new(b"Content-Type".to_vec(), b"text/html".to_vec()));
    let got = headers.get(&b"content-type".to_vec()).unwrap();
    assert_eq!(*got, b"text/html".to_vec());
    assert!(headers.have::<ContentType>(ContentType::HTML));
    // later occurrence overwrites the earlier one
    headers.add(Header::new(b"CONTENT-TYPE".to_vec(), b"text/plain".to_vec()));
    assert_eq!(headers.len(), 1);
    assert_eq!(*headers.get(&b"content-type".to_vec()).unwrap(), b"text/plain".to_vec());
    assert!(headers.get(&b"accept".to_vec()).is_none());
    assert!(!headers.have::<ContentType>(ContentType::HTML));
}

#[test]
fn headline_splits_into_three_fields() {
    let input = b"GET /index.html HTTP/1.1\r\nrest".to_vec();
    let (h, used) = Headline::parse(&input, 0).unwrap();
    assert_eq!(h.0, b"GET".to_vec());
    assert_eq!(h.1, b"/index.html".to_vec());
    assert_eq!(h.2, b"HTTP/1.1".to_vec());
    assert_eq!(used, 26);
    // the third field may contain spaces
    let status = b"HTTP/1.1 404 Not Found\r\n".to_vec();
    let (s, _) = Headline::parse(&status, 0).unwrap();
    assert_eq!(s.2, b"Not Found".to_vec());
}

#[test]
fn headline_errors() {
    assert!(matches!(Headline::parse(&b"lonely\r\n".to_vec(), 0), Err(ParsingError::Head)));
    assert!(matches!(Headline::parse(&b"two fields\r\n".to_vec(), 0), Err(ParsingError::Head)));
    assert!(matches!(Headline::parse(&b"no newline".to_vec(), 0), Err(ParsingError::IO)));
}

#[test]
fn dechunk_scenario() {
    let input = b"4\r\nWiki\r\n5\r\npedia\r\n0\r\n\r\n".to_vec();
    let (payload, used) = Payload::dechunk(&input, 0).unwrap();
    assert_eq!(payload.data(), b"Wikipedia".to_vec());
    assert_eq!(payload.data().len(), 9);
    // the terminating size line is consumed, the blank line after it is not
    assert_eq!(used, input.len() - 2);
    let chunks = payload.chunks();
    assert_eq!(chunks, vec![b"Wiki".to_vec(), b"pedia".to_vec()]);
    assert_eq!(payload.text(), "Wikipedia".to_string());
}

#[test]
fn dechunk_stops_on_unparsable_size_line() {
    // an unparsable size line ends chunk reading like a zero size
    let input = b"4\r\nWiki\r\nzz\r\nWhatever".to_vec();
    let (payload, used) = Payload::dechunk(&input, 0).unwrap();
    assert_eq!(payload.data(), b"Wiki".to_vec());
    assert_eq!(used, 13);
    // incomplete chunk data is an IO error
    assert!(matches!(Payload::dechunk(&b"5\r\nab".to_vec(), 0), Err(ParsingError::IO)));
}

#[test]
fn content_length_reads_exactly() {
    let input = b"GET / HTTP/1.1\r\nContent-Length: 5\r\n\r\nhelloTRAILING".to_vec();
    let (req, used) = Request::parse(&input, 0).unwrap();
    assert_eq!(req.message.payload.raw(), &b"hello".to_vec());
    assert_eq!(used, input.len() - b"TRAILING".len());
    // an unparsable content-length is a Payload error
    let bad = b"GET / HTTP/1.1\r\nContent-Length: five\r\n\r\n".to_vec();
    assert!(matches!(Request::parse(&bad, 0), Err(ParsingError::Payload)));
    // a short body is an IO error
    let short = b"GET / HTTP/1.1\r\nContent-Length: 50\r\n\r\nhello".to_vec();
    assert!(matches!(Request::parse(&short, 0), Err(ParsingError::IO)));
}

#[test]
fn request_parse_errors() {
    assert!(matches!(Request::parse(&b"BREW / HTTP/1.1\r\n\r\n".to_vec(), 0), Err(ParsingError::Method)));
    assert!(matches!(Request::parse(&b"GET / HTTP/9.9\r\n\r\n".to_vec(), 0), Err(ParsingError::Version)));
    assert!(matches!(Request::parse(&b"GET /\r\n\r\n".to_vec(), 0), Err(ParsingError::Head)));
    assert!(matches!(Request::parse(&b"GET / HTT".to_vec(), 0), Err(ParsingError::IO)));
}

#[test]
fn response_parse_errors() {
    assert!(matches!(Response::parse(&b"HTTP/1.1 299 Fine\r\n\r\n".to_vec(), 0), Err(ParsingError::Status)));
    // the reason phrase must be the canonical one
    assert!(matches!(Response::parse(&b"HTTP/1.1 200 Fine\r\n\r\n".to_vec(), 0), Err(ParsingError::Status)));
    assert!(matches!(Response::parse(&b"HTTP/9.9 200 OK\r\n\r\n".to_vec(), 0), Err(ParsingError::Version)));
}

#[test]
fn request_round_trip() {
    let mut request = Request::new();
    request.method = Method::POST;
    request.target = Target::parse(&b"/path?x=1&y".to_vec()).unwrap();
    request.message.headers.add(Header::new(b"Accept".to_vec(), b"text/html".to_vec()));
    request.message.payload = Payload::new(&b"hello".to_vec());
    let bytes = request.construct();
    let (parsed, used) = Request::parse(&bytes, 0).unwrap();
    assert_eq!(used, bytes.len());
    assert_eq!(parsed.method, Method::POST);
    assert_eq!(parsed.version, Version::V11);
    assert_eq!(parsed.target.location, b"/path".to_vec());
    assert_eq!(parsed.target.parameters.len(), 2);
    assert_eq!(parsed.target.parameters[0].name, b"x".to_vec());
    assert_eq!(parsed.target.parameters[0].value, Some(b"1".to_vec()));
    assert_eq!(parsed.target.parameters[1].name, b"y".to_vec());
    assert_eq!(parsed.target.parameters[1].value, None);
    assert_eq!(*parsed.message.headers.get(&b"accept".to_vec()).unwrap(), b"text/html".to_vec());
    // construct added a content-length header to both sides
    assert_eq!(*parsed.message.headers.get(&b"content-length".to_vec()).unwrap(), b"5".to_vec());
    assert_eq!(request.message.headers.len(), parsed.message.headers.len());
    assert_eq!(parsed.message.payload.raw(), &b"hello".to_vec());
}

#[test]
fn response_round_trip() {
    let mut response = Response::new();
    response.status = Status::NotFound;
    response.message.payload = Payload::new(&b"gone".to_vec());
    let bytes = response.construct();
    let (parsed, used) = Response::parse(&bytes, 0).unwrap();
    assert_eq!(used, bytes.len());
    assert_eq!(parsed.status, Status::NotFound);
    assert_eq!(parsed.version, Version::V11);
    assert_eq!(parsed.message.payload.raw(), &b"gone".to_vec());
    // an empty payload adds no content-length header
    let mut empty = Response::new();
    let ebytes = empty.construct();
    assert_eq!(ebytes, b"HTTP/1.1 200 OK\r\n\r\n".to_vec());
    let (eparsed, eused) = Response::parse(&ebytes, 0).unwrap();
    assert_eq!(eused, ebytes.len());
    assert_eq!(eparsed.message.headers.len(), 0);
    assert_eq!(eparsed.message.payload.raw(), &b"".to_vec());
}

#[test]
fn content_coding_round_trip_gzip() {
    let original = b"some reasonably repetitive text text text".to_vec();
    let encodings = Encodings::parse(&b"gzip".to_vec());
    let encoded = encodings.encode(&original).unwrap();
    assert_ne!(encoded, original);
    let decoded = encodings.decode(&encoded).unwrap();
    assert_eq!(decoded, original);
    // raw text is not a valid gzip stream
    assert!(matches!(encodings.decode(&original), Err(ParsingError::IO)));
}

#[test]
fn content_coding_round_trip_gzip_deflate() {
    let original = b"stacked codings round trip".to_vec();
    let encodings = Encodings::parse(&b"gzip,deflate".to_vec());
    let encoded = encodings.encode(&original).unwrap();
    let decoded = encodings.decode(&encoded).unwrap();
    assert_eq!(decoded, original);
}

#[test]
fn content_coding_round_trip_brotli() {
    let original = b"brotli coded bytes".to_vec();
    let encodings = Encodings::parse(&b"br".to_vec());
    let encoded = encodings.encode(&original).unwrap();
    let decoded = encodings.decode(&encoded).unwrap();
    assert_eq!(decoded, original);
}

#[test]
fn message_decodes_content_encoding_header() {
    let original = b"compressed body".to_vec();
    let encodings = Encodings::parse(&b"gzip".to_vec());
    let encoded = encodings.encode(&original).unwrap();
    let mut input = format!(
        "HTTP/1.1 200 OK\r\nContent-Encoding: gzip\r\nContent-Length: {}\r\n\r\n",
        encoded.len()
    )
    .into_bytes();
    input.extend(encoded);
    let (parsed, used) = Response::parse(&input, 0).unwrap();
    assert_eq!(used, input.len());
    assert_eq!(parsed.message.payload.raw(), &original);
}

#[test]
fn chunked_transfer_encoding_message() {
    let input = b"POST /up HTTP/1.1\r\nTransfer-Encoding: chunked\r\n\r\n4\r\nWiki\r\n5\r\npedia\r\n0\r\n".to_vec();
    let (parsed, used) = Request::parse(&input, 0).unwrap();
    assert_eq!(used, input.len());
    assert_eq!(parsed.message.payload.data(), b"Wikipedia".to_vec());
    assert_eq!(parsed.message.payload.chunks().len(), 2);
}

#[test]
fn header_cap_terminates_header_parsing() {
    let mut input = b"GET / HTTP/1.1\r\n".to_vec();
    let mut big = b"Big: ".to_vec();
    big.extend(std::iter::repeat(b'a').take(10_000));
    big.extend(b"\r\n");
    input.extend(&big);
    input.extend(b"After: value\r\n\r\n");
    let (req, used) = Request::parse(&input, 0).unwrap();
    // the oversized line is consumed but discarded, and header reading stops there
    assert!(req.message.headers.get(&b"big".to_vec()).is_none());
    assert!(req.message.headers.get(&b"after".to_vec()).is_none());
    assert_eq!(req.message.headers.len(), 0);
    assert_eq!(used, b"GET / HTTP/1.1\r\n".len() + big.len());
}

#[test]
fn uri_scenario() {
    let uri = Uri::parse(&b"https://example.com:8443/path?x=1&y".to_vec()).unwrap();
    assert_eq!(uri.address.domain, b"example.com".to_vec());
    assert_eq!(uri.address.port, 8443);
    assert!(matches!(uri.protocol, Some(Protocol::Https)));
    assert_eq!(uri.target.location, b"/path".to_vec());
    assert_eq!(uri.target.parameters.len(), 2);
    assert_eq!(uri.target.parameters[0].name, b"x".to_vec());
    assert_eq!(uri.target.parameters[0].value, Some(b"1".to_vec()));
    assert_eq!(uri.target.parameters[1].name, b"y".to_vec());
    assert_eq!(uri.target.parameters[1].value, None);
}

#[test]
fn uri_defaults_and_failures() {
    let plain = Uri::parse(&b"example.com".to_vec()).unwrap();
    assert_eq!(plain.address.port, 80);
    assert_eq!(plain.target.location, b"/".to_vec());
    assert!(plain.protocol.is_none());
    assert_eq!(plain.target.parameters.len(), 0);
    let secure = Uri::parse(&b"https://example.com".to_vec()).unwrap();
    assert_eq!(secure.address.port, 443);
    let http = Uri::parse(&b"http://example.com:81/".to_vec()).unwrap();
    assert_eq!(http.address.port, 81);
    assert_eq!(http.target.location, b"/".to_vec());
    assert!(Uri::parse(&b"http://".to_vec()).is_none());
    assert!(Uri::parse(&b"example.com:pq".to_vec()).is_none());
    assert!(Uri::parse(&b"example.com]trailing".to_vec()).is_none());
}

#[test]
fn parameter_with_two_equals_is_rejected_whole() {
    assert!(Parameter::parse(&b"a=b=c".to_vec()).is_none());
    let ps = Parameter::parse_many(&b"a=b=c&d=e".to_vec());
    assert_eq!(ps.len(), 1);
    assert_eq!(ps[0].name, b"d".to_vec());
    assert_eq!(ps[0].value, Some(b"e".to_vec()));
    let p = Parameter::new(b"k".to_vec(), Some(b"v".to_vec()));
    assert_eq!(p.construct(), b"k=v".to_vec());
}

#[test]
fn address_text_and_host() {
    let a = Address::new(b"example.com".to_vec(), None);
    assert_eq!(a.port, 80);
    assert_eq!(a.to_string(), b"example.com:80".to_vec());
    assert_eq!(a.host(), b"www.example.com".to_vec());
    let b = Address::new(b"example.com".to_vec(), Some(8080));
    assert_eq!(b.to_string(), b"example.com:8080".to_vec());
}

#[test]
fn redirect_scenario() {
    let mut headers = Headers::new();
    headers.add(Header::new(b"Location".to_vec(), b"http://example.com/next".to_vec()));
    // with budget, the location is followed exactly once per decision
    match Http::redirect(Status::MovedPermanently, &headers, 1) {
        RedirectAction::Follow(loc) => assert_eq!(loc, b"http://example.com/next".to_vec()),
        _ => panic!("expected a follow"),
    }
    // with the budget spent the same response is the distinct limit failure
    assert!(matches!(Http::redirect(Status::MovedPermanently, &headers, 0), RedirectAction::LimitExceeded));
    // a non-redirect status is delivered
    assert!(matches!(Http::redirect(Status::Okay, &headers, 0), RedirectAction::Deliver));
    // a redirect without a location is delivered as it stands
    let bare = Headers::new();
    assert!(matches!(Http::redirect(Status::MovedPermanently, &bare, 5), RedirectAction::Deliver));
    assert_eq!(REDIRECT_LIMIT, 10);
}

#[test]
fn keep_alive_scenario() {
    // client sends keep-alive, then close: the server loops exactly once
    let mut first = Request::new();
    first.message.headers.add(Header::from(Connection::KeepAlive));
    let mut second = Request::new();
    second.message.headers.add(Header::from(Connection::Close));
    let mut stream = first.construct();
    stream.extend(second.construct());

    let mut served: Vec<Request> = Vec::new();
    let mut pos = 0;
    loop {
        let (request, used) = Request::parse(&stream, pos).unwrap();
        pos = used;
        let alive = Http::keep_alive(&request.message.headers);
        served.push(request);
        if !alive {
            break;
        }
    }
    assert_eq!(served.len(), 2);
    assert_eq!(pos, stream.len());
    assert!(Http::keep_alive(&served[0].message.headers));
    assert!(!Http::keep_alive(&served[1].message.headers));
}

#[test]
fn diagnostic_text_rendering() {
    let input = b"GET / HTTP/1.1\r\nContent-Length: 5\r\n\r\nhello".to_vec();
    let (req, _) = Request::parse(&input, 0).unwrap();
    let text = req.text();
    assert!(text.starts_with("GET / HTTP/1.1\r\n"));
    assert!(text.ends_with("hello"));
}

#[test]
fn header_rendering_from_values() {
    let h = Header::from(Connection::KeepAlive);
    assert_eq!(h.name, b"connection".to_vec());
    assert_eq!(h.value, b"keep-alive".to_vec());
    let many = Header::from_many(&vec![Encoding::GZip, Encoding::Brotli]);
    assert_eq!(many.name, b"content-encoding".to_vec());
    assert_eq!(many.value, b"gzip,br".to_vec());
    assert_eq!(Encoding::delimiter(), b',');
    assert!(Encoding::is_multi());
    assert!(!TransferEncoding::is_multi());
}

#[test]
fn payload_accessors() {
    let p = Payload::new(&b"abc".to_vec());
    assert_eq!(p.raw(), &b"abc".to_vec());
    assert_eq!(p.construct(), &b"abc".to_vec());
    assert_eq!(p.chunks(), vec![b"abc".to_vec()]);
    let d = Payload::default();
    assert_eq!(d.raw(), &b"".to_vec());
    let (read, used) = Payload::read(&b"0123456789".to_vec(), 2, 5).unwrap();
    assert_eq!(read.raw(), &b"23456".to_vec());
    assert_eq!(used, 7);
    assert!(matches!(Payload::read(&b"abc".to_vec(), 0, 9), Err(ParsingError::IO)));
}

#[test]
fn headers_list_keeps_storage_order() {
    let mut headers = Headers::new();
    headers.add(Header::new(b"A".to_vec(), b"1".to_vec()));
    headers.add(Header::new(b"B".to_vec(), b"2".to_vec()));
    headers.add(Header::new(b"a".to_vec(), b"3".to_vec()));
    let listed = headers.list();
    assert_eq!(listed.len(), 2);
    assert_eq!(listed[0].name, b"a".to_vec());
    assert_eq!(listed[0].value, b"3".to_vec());
    assert_eq!(listed[1].name, b"B".to_vec());
    let rendered = headers.construct();
    assert_eq!(rendered, b"a: 3\r\nB: 2\r\n".to_vec());
}

#[test]
fn payload_coding_round_trip() {
    let payload = Payload::new(&b"payload level coding".to_vec());
    let encodings = Encodings::parse(&b"br,gzip".to_vec());
    let encoded = payload.encode(&encodings).unwrap();
    let decoded = encoded.decode(&encodings).unwrap();
    assert_eq!(decoded.raw(), payload.raw());
}

#[test]
fn target_text_round_trip() {
    let target = Target::default();
    assert_eq!(target.location, b"/".to_vec());
    assert_eq!(target.construct(), b"/".to_vec());
    let parsed = Target::parse(&b"/p?a=1&b".to_vec()).unwrap();
    assert_eq!(parsed.construct(), b"/p?a=1&b".to_vec());
}

#[test]
fn header_value_leading_whitespace_is_trimmed() {
    let h = Header::parse(&b"X-Pad:   \t padded  ".to_vec()).unwrap();
    assert_eq!(h.name, b"X-Pad".to_vec());
    assert_eq!(h.value, b"padded  ".to_vec());
    // an all-whitespace value trims to empty, and the header still counts
    let e = Header::parse(&b"X-Empty: ".to_vec()).unwrap();
    assert_eq!(e.value, b"".to_vec());
}

#[test]
fn empty_coding_list_is_identity() {
    let encodings = Encodings::parse(&b"zstd".to_vec());
    let payload = b"unchanged".to_vec();
    assert_eq!(encodings.encode(&payload).unwrap(), payload);
    assert_eq!(encodings.decode(&payload).unwrap(), payload);
}
