use minhttp::connection::{LoopStep, MessageBuffer};
use minhttp::decode::decode;
use minhttp::message::{
    Message, MessageParseError, Method, MethodParseError, Request, Response, Version,
    VersionParseError,
};
use minhttp::server::{get_filepath_from_code, ServerInfo};
use minhttp::{Deserialize, Serialize};

fn header(k: &str, v: &str) -> (String, String) {
    (k.to_string(), v.to_string())
}

fn get_request(resource: &str, headers: Vec<(String, String)>, body: &[u8]) -> Request {
    Request {
        method: Method::Get,
        resource: resource.to_string(),
        version: Version::Http11,
        headers,
        body: body.to_vec(),
    }
}

#[test]
fn empty_stream_is_connection_closed() {
    assert!(matches!(decode(b""), Err(MessageParseError::ConnectionClosed)));
}

#[test]
fn two_field_start_line_is_malformed() {
    assert!(matches!(decode(b"GET /\r\n\r\n"), Err(MessageParseError::RequestLineParse)));
}

#[test]
fn request_with_body_decodes() {
    let input = b"GET / HTTP/1.1\r\nContent-Length: 5\r\n\r\nhello";
    match decode(input) {
        Ok((Message::Request(r), n)) => {
            assert_eq!(r.method, Method::Get);
            assert_eq!(r.resource, "/");
            assert_eq!(r.version, Version::Http11);
            assert_eq!(r.headers, vec![header("Content-Length", "5")]);
            assert_eq!(r.body, b"hello".to_vec());
            assert_eq!(n, input.len());
        }
        _ => panic!("expected a request"),
    }
}

#[test]
fn header_without_separator_is_malformed() {
    assert!(matches!(
        decode(b"GET / HTTP/1.1\r\nBadHeaderLine\r\n\r\n"),
        Err(MessageParseError::Header)
    ));
}

#[test]
fn not_found_page_has_reason_and_length() {
    let body = b"<h1>missing</h1>".to_vec();
    let r = Response::serve_file_with_code(Version::Http11, 404, body.clone());
    assert_eq!(r.code, 404);
    assert_eq!(r.message, "Not Found");
    assert_eq!(r.headers, vec![header("Content-Length", &body.len().to_string())]);
    assert_eq!(r.body, body);
}

#[test]
fn unknown_code_gets_generic_reason() {
    let r = Response::serve_file_with_code(Version::Http2, 299, vec![]);
    assert_eq!(r.message, "Unknown Code");
    assert_eq!(r.headers, vec![header("Content-Length", "0")]);
}

#[test]
fn serve_file_is_ok() {
    let r = Response::serve_file(Version::Http11, b"abc".to_vec());
    assert_eq!(r.code, 200);
    assert_eq!(r.message, "OK");
    assert_eq!(r.headers, vec![header("Content-Length", "3")]);
}

#[test]
fn status_table_lookups() {
    assert_eq!(Response::message(200), Some("OK"));
    assert_eq!(Response::message(418), Some("I'm a teapot"));
    assert_eq!(Response::message(511), Some("Network Authentication Required"));
    assert_eq!(Response::message(999), None);
    assert_eq!(Response::message(0), None);
}

#[test]
fn tokens_parse_back() {
    let methods = [
        Method::Get,
        Method::Head,
        Method::Post,
        Method::Put,
        Method::Delete,
        Method::Connect,
        Method::Options,
        Method::Trace,
        Method::Patch,
    ];
    for m in methods {
        assert_eq!(Method::parse(m.to_token()), Ok(m));
    }
    for v in [Version::Http11, Version::Http2, Version::Http3] {
        assert_eq!(Version::parse(v.to_token()), Ok(v));
    }
    assert_eq!(Method::parse("get"), Err(MethodParseError::InvalidMethod));
    assert_eq!(Method::parse(" GET"), Err(MethodParseError::InvalidMethod));
    assert_eq!(Version::parse("HTTP/1.0"), Err(VersionParseError::InvalidVersion));
}

#[test]
fn request_encodes_exactly() {
    let r = get_request("/index.html", vec![header("Host", "example.com")], b"");
    assert_eq!(r.encode(), b"GET /index.html HTTP/1.1\r\nHost: example.com\r\n\r\n".to_vec());
    assert_eq!(r.serialize(), r.encode());
}

#[test]
fn response_encodes_exactly() {
    let r = Response::serve_file_with_code(Version::Http11, 404, b"gone".to_vec());
    assert_eq!(
        r.encode(),
        b"HTTP/1.1 404 Not Found\r\nContent-Length: 4\r\n\r\ngone".to_vec()
    );
}

#[test]
fn request_round_trips_with_trailing_bytes() {
    let r = Request {
        method: Method::Post,
        resource: "/submit?x=1".to_string(),
        version: Version::Http2,
        headers: vec![header("Content-Length", "3"), header("X-Note", "a: b")],
        body: b"xyz".to_vec(),
    };
    let mut bytes = r.encode();
    let len = bytes.len();
    bytes.extend_from_slice(b"GET / HTTP/1.1\r\n");
    match Message::deserialize(&bytes) {
        Ok((Message::Request(d), n)) => {
            assert_eq!(n, len);
            assert_eq!(d.method, r.method);
            assert_eq!(d.resource, r.resource);
            assert_eq!(d.version, r.version);
            assert_eq!(d.headers, r.headers);
            assert_eq!(d.body, r.body);
        }
        _ => panic!("expected a request"),
    }
}

#[test]
fn response_round_trips() {
    let r = Response::serve_file_with_code(Version::Http3, 503, b"later".to_vec());
    let bytes = Message::Response(Response {
        version: r.version,
        code: r.code,
        message: r.message.clone(),
        headers: r.headers.clone(),
        body: r.body.clone(),
    })
    .serialize();
    match decode(&bytes) {
        Ok((Message::Response(d), n)) => {
            assert_eq!(n, bytes.len());
            assert_eq!(d.version, Version::Http3);
            assert_eq!(d.code, 503);
            assert_eq!(d.message, "Service Unavailable");
            assert_eq!(d.headers, r.headers);
            assert_eq!(d.body, b"later".to_vec());
        }
        _ => panic!("expected a response"),
    }
}

#[test]
fn unknown_first_token_is_malformed() {
    assert!(matches!(decode(b"FETCH / HTTP/1.1\r\n\r\n"), Err(MessageParseError::RequestLineParse)));
    assert!(matches!(decode(b"GET / HTTP/9\r\n\r\n"), Err(MessageParseError::RequestLineParse)));
    assert!(matches!(decode(b"HTTP/1.1 abc OK\r\n\r\n"), Err(MessageParseError::RequestLineParse)));
}

#[test]
fn bad_content_length_is_reported() {
    assert!(matches!(
        decode(b"GET / HTTP/1.1\r\nContent-Length: five\r\n\r\nhello"),
        Err(MessageParseError::ContentLength)
    ));
    assert!(matches!(
        decode(b"GET / HTTP/1.1\r\nContent-Length: -1\r\n\r\n"),
        Err(MessageParseError::ContentLength)
    ));
}

#[test]
fn short_body_is_a_read_failure() {
    assert!(matches!(
        decode(b"GET / HTTP/1.1\r\nContent-Length: 10\r\n\r\nhello"),
        Err(MessageParseError::BodyRead)
    ));
}

#[test]
fn unterminated_header_block_is_connection_closed() {
    assert!(matches!(
        decode(b"GET / HTTP/1.1\r\nHost: a\r\n"),
        Err(MessageParseError::ConnectionClosed)
    ));
}

#[test]
fn lf_only_lines_and_plus_sign_length() {
    match decode(b"GET /a HTTP/1.1\nContent-Length: +2\n\nok") {
        Ok((Message::Request(r), n)) => {
            assert_eq!(r.resource, "/a");
            assert_eq!(r.body, b"ok".to_vec());
            assert_eq!(n, 38);
        }
        _ => panic!("expected a request"),
    }
}

#[test]
fn duplicate_header_keeps_last_value() {
    match decode(b"GET / HTTP/1.1\r\nA: 1\r\nB: 2\r\nA: 3\r\n\r\n") {
        Ok((Message::Request(r), _)) => {
            assert_eq!(r.headers, vec![header("A", "3"), header("B", "2")]);
        }
        _ => panic!("expected a request"),
    }
}

#[test]
fn reason_phrase_may_hold_spaces() {
    match decode(b"HTTP/1.1 404 Not Found\r\n\r\n") {
        Ok((Message::Response(r), _)) => {
            assert_eq!(r.code, 404);
            assert_eq!(r.message, "Not Found");
        }
        _ => panic!("expected a response"),
    }
}

#[test]
fn loop_serves_requests_in_order_then_closes() {
    let mut buf = MessageBuffer::new();
    for path in ["/one", "/two", "/three"] {
        buf.feed(&get_request(path, vec![], b"").encode());
    }
    let mut served = Vec::new();
    loop {
        match buf.next_step(true) {
            LoopStep::Serve(r) => served.push(r.resource),
            LoopStep::ClosedGracefully => break,
            _ => panic!("unexpected step"),
        }
    }
    assert_eq!(served, vec!["/one", "/two", "/three"]);
    assert!(buf.pending.is_empty());
}

#[test]
fn loop_waits_for_more_bytes_while_open() {
    let mut buf = MessageBuffer::new();
    buf.feed(b"GET / HTTP/1.1\r\nContent-Length: 4\r\n\r\nab");
    assert!(matches!(buf.next_step(false), LoopStep::ReadMore));
    assert!(matches!(buf.next_step(true), LoopStep::ClosedWithError(MessageParseError::BodyRead)));
    buf.feed(b"cd");
    match buf.next_step(false) {
        LoopStep::Serve(r) => assert_eq!(r.body, b"abcd".to_vec()),
        _ => panic!("expected a request"),
    }
    assert!(matches!(buf.next_step(false), LoopStep::ReadMore));
    assert!(matches!(buf.next_step(true), LoopStep::ClosedGracefully));
}

#[test]
fn loop_rejects_responses_and_stops_on_garbage() {
    let mut buf = MessageBuffer::new();
    buf.feed(b"HTTP/1.1 200 OK\r\n\r\nnonsense\r\n");
    assert!(matches!(buf.next_step(false), LoopStep::Reject));
    assert!(matches!(
        buf.next_step(false),
        LoopStep::ClosedWithError(MessageParseError::RequestLineParse)
    ));
}

#[test]
fn server_paths_and_host_check() {
    let info = ServerInfo::new("/srv".to_string(), "example.com".to_string(), 8080);
    assert_eq!(info.path("a/b"), "/srv/a/b");
    assert!(info.host_check("example.com"));
    assert!(info.host_check("example.com:8080"));
    assert!(!info.host_check("example.com:80"));
    assert!(!info.host_check("other.org"));
    assert_eq!(info.target("/docs", true), "/srv//docs/index.html");
    assert_eq!(info.target("/a.txt", false), "/srv//a.txt");
    assert_eq!(get_filepath_from_code(404), ".errors/404.html");
    let ok = get_request("/", vec![header("Host", "example.com:8080")], b"");
    assert!(info.accepts(&ok));
    let missing = get_request("/", vec![], b"");
    assert!(!info.accepts(&missing));
}

#[test]
fn tokens_parse_through_from_str() {
    assert_eq!("PATCH".parse::<Method>(), Ok(Method::Patch));
    assert_eq!("HTTP/2".parse::<Version>(), Ok(Version::Http2));
    assert_eq!("patch".parse::<Method>(), Err(MethodParseError::InvalidMethod));
}

#[test]
fn errors_describe_themselves() {
    assert_eq!(MessageParseError::Header.describe(), "failed to parse header");
    assert_eq!(MessageParseError::ConnectionClosed.describe(), "the connection was closed");
}

#[test]
fn request_new_reads_only_the_announced_body() {
    let r = Request::new(Method::Put, "/x", Version::Http11, vec![header("Content-Length", "3")], b"abcdef")
        .ok()
        .unwrap();
    assert_eq!(r.body, b"abc".to_vec());
    assert_eq!(r.resource, "/x");
    let r = Request::new(Method::Get, "/", Version::Http11, vec![], b"abc").ok().unwrap();
    assert!(r.body.is_empty());
    assert!(matches!(
        Request::new(Method::Get, "/", Version::Http11, vec![header("Content-Length", "9")], b"abc"),
        Err(MessageParseError::BodyRead)
    ));
}

#[test]
fn response_new_checks_content_length() {
    let r = Response::new(Version::Http11, 201, "Created", vec![header("Content-Length", "2")], b"hi!")
        .ok()
        .unwrap();
    assert_eq!(r.body, b"hi".to_vec());
    assert_eq!(r.code, 201);
    assert!(matches!(
        Response::new(Version::Http11, 200, "OK", vec![header("Content-Length", "x")], b""),
        Err(MessageParseError::ContentLength)
    ));
}

#[test]
fn from_str_refuses_near_misses() {
    for s in ["get", "Get", " GET", "GET ", ""] {
        assert_eq!(s.parse::<Method>(), Err(MethodParseError::InvalidMethod));
    }
    for s in ["HTTP/1.0", "http/1.1", "HTTP/2.0", " HTTP/1.1"] {
        assert_eq!(s.parse::<Version>(), Err(VersionParseError::InvalidVersion));
    }
}

#[test]
fn unicode_resource_and_colon_in_name_round_trip() {
    let r = get_request("/café/ünï", vec![header("X:Y", "wert: ä")], b"");
    let bytes = r.encode();
    match decode(&bytes) {
        Ok((Message::Request(d), n)) => {
            assert_eq!(n, bytes.len());
            assert_eq!(d.resource, "/café/ünï");
            assert_eq!(d.headers, vec![header("X:Y", "wert: ä")]);
        }
        _ => panic!("expected a request"),
    }
}
