use vstd::prelude::*;
use vstd::utf8::*;

use crate::bytes::bytes_eq;

verus! {

/// The request methods that the engine knows.
#[derive(Clone, Copy, Debug, PartialEq, Eq, Structural)]
pub enum Method {
    Get,
    Head,
    Post,
    Put,
    Delete,
    Connect,
    Options,
    Trace,
    Patch,
}

/// A token that names no method.
#[derive(Clone, Copy, Debug, PartialEq, Eq, Structural)]
pub enum MethodParseError {
    InvalidMethod,
}

/// The protocol versions that the engine can name; framing is always HTTP/1.1's.
#[derive(Clone, Copy, Debug, PartialEq, Eq, Structural)]
pub enum Version {
    Http11,
    Http2,
    Http3,
}

/// A token that names no version.
#[derive(Clone, Copy, Debug, PartialEq, Eq, Structural)]
pub enum VersionParseError {
    InvalidVersion,
}

/// The canonical token of a method.
pub open spec fn method_token(m: Method) -> Seq<char> {
    match m {
        Method::Get => "GET"@,
        Method::Head => "HEAD"@,
        Method::Post => "POST"@,
        Method::Put => "PUT"@,
        Method::Delete => "DELETE"@,
        Method::Connect => "CONNECT"@,
        Method::Options => "OPTIONS"@,
        Method::Trace => "TRACE"@,
        Method::Patch => "PATCH"@,
    }
}

/// The canonical token of a version.
pub open spec fn version_token(v: Version) -> Seq<char> {
    match v {
        Version::Http11 => "HTTP/1.1"@,
        Version::Http2 => "HTTP/2"@,
        Version::Http3 => "HTTP/3"@,
    }
}

/// The method whose token is exactly `t`, if any: no case folding, no trimming.
pub open spec fn method_of_token(t: Seq<char>) -> Option<Method> {
    if t == method_token(Method::Get) {
        Some(Method::Get)
    } else if t == method_token(Method::Head) {
        Some(Method::Head)
    } else if t == method_token(Method::Post) {
        Some(Method::Post)
    } else if t == method_token(Method::Put) {
        Some(Method::Put)
    } else if t == method_token(Method::Delete) {
        Some(Method::Delete)
    } else if t == method_token(Method::Connect) {
        Some(Method::Connect)
    } else if t == method_token(Method::Options) {
        Some(Method::Options)
    } else if t == method_token(Method::Trace) {
        Some(Method::Trace)
    } else if t == method_token(Method::Patch) {
        Some(Method::Patch)
    } else {
        None
    }
}

/// The version whose token is exactly `t`, if any.
pub open spec fn version_of_token(t: Seq<char>) -> Option<Version> {
    if t == version_token(Version::Http11) {
        Some(Version::Http11)
    } else if t == version_token(Version::Http2) {
        Some(Version::Http2)
    } else if t == version_token(Version::Http3) {
        Some(Version::Http3)
    } else {
        None
    }
}

impl Method {
    /// The canonical token of this method.
    pub fn to_token(&self) -> (r: &'static str)
        ensures
            r@ == method_token(*self),
    {
        match self {
            Method::Get => "GET",
            Method::Head => "HEAD",
            Method::Post => "POST",
            Method::Put => "PUT",
            Method::Delete => "DELETE",
            Method::Connect => "CONNECT",
            Method::Options => "OPTIONS",
            Method::Trace => "TRACE",
            Method::Patch => "PATCH",
        }
    }
}

impl Version {
    /// The canonical token of this version.
    pub fn to_token(&self) -> (r: &'static str)
        ensures
            r@ == version_token(*self),
    {
        match self {
            Version::Http11 => "HTTP/1.1",
            Version::Http2 => "HTTP/2",
            Version::Http3 => "HTTP/3",
        }
    }
}


/// The method whose token is encoded by exactly the bytes `b`, if any.
pub open spec fn method_of_bytes(b: Seq<u8>) -> Option<Method> {
    if b == encode_utf8(method_token(Method::Get)) {
        Some(Method::Get)
    } else if b == encode_utf8(method_token(Method::Head)) {
        Some(Method::Head)
    } else if b == encode_utf8(method_token(Method::Post)) {
        Some(Method::Post)
    } else if b == encode_utf8(method_token(Method::Put)) {
        Some(Method::Put)
    } else if b == encode_utf8(method_token(Method::Delete)) {
        Some(Method::Delete)
    } else if b == encode_utf8(method_token(Method::Connect)) {
        Some(Method::Connect)
    } else if b == encode_utf8(method_token(Method::Options)) {
        Some(Method::Options)
    } else if b == encode_utf8(method_token(Method::Trace)) {
        Some(Method::Trace)
    } else if b == encode_utf8(method_token(Method::Patch)) {
        Some(Method::Patch)
    } else {
        None
    }
}

/// The version whose token is encoded by exactly the bytes `b`, if any.
pub open spec fn version_of_bytes(b: Seq<u8>) -> Option<Version> {
    if b == encode_utf8(version_token(Version::Http11)) {
        Some(Version::Http11)
    } else if b == encode_utf8(version_token(Version::Http2)) {
        Some(Version::Http2)
    } else if b == encode_utf8(version_token(Version::Http3)) {
        Some(Version::Http3)
    } else {
        None
    }
}

/// Text and its UTF-8 encoding determine each other.
pub proof fn lemma_encode_utf8_injective(a: Seq<char>, b: Seq<char>)
    ensures
        (encode_utf8(a) == encode_utf8(b)) == (a == b),
{
    encode_utf8_decode_utf8(a);
    encode_utf8_decode_utf8(b);
}

impl Method {
    /// The method named by the bytes `b`.
    pub fn from_bytes(b: &[u8]) -> (r: Option<Method>)
        ensures
            r == method_of_bytes(b@),
    {
        if bytes_eq(b, "GET".as_bytes()) {
            Some(Method::Get)
        } else if bytes_eq(b, "HEAD".as_bytes()) {
            Some(Method::Head)
        } else if bytes_eq(b, "POST".as_bytes()) {
            Some(Method::Post)
        } else if bytes_eq(b, "PUT".as_bytes()) {
            Some(Method::Put)
        } else if bytes_eq(b, "DELETE".as_bytes()) {
            Some(Method::Delete)
        } else if bytes_eq(b, "CONNECT".as_bytes()) {
            Some(Method::Connect)
        } else if bytes_eq(b, "OPTIONS".as_bytes()) {
            Some(Method::Options)
        } else if bytes_eq(b, "TRACE".as_bytes()) {
            Some(Method::Trace)
        } else if bytes_eq(b, "PATCH".as_bytes()) {
            Some(Method::Patch)
        } else {
            None
        }
    }

    /// The method whose canonical token is exactly `token`.
    pub fn parse(token: &str) -> (r: Result<Method, MethodParseError>)
        ensures
            r matches Ok(m) ==> method_of_token(token@) == Some(m),
            r is Err ==> method_of_token(token@) is None,
    {
        let found = Method::from_bytes(token.as_bytes());
        proof {
            lemma_encode_utf8_injective(token@, method_token(Method::Get));
            lemma_encode_utf8_injective(token@, method_token(Method::Head));
            lemma_encode_utf8_injective(token@, method_token(Method::Post));
            lemma_encode_utf8_injective(token@, method_token(Method::Put));
            lemma_encode_utf8_injective(token@, method_token(Method::Delete));
            lemma_encode_utf8_injective(token@, method_token(Method::Connect));
            lemma_encode_utf8_injective(token@, method_token(Method::Options));
            lemma_encode_utf8_injective(token@, method_token(Method::Trace));
            lemma_encode_utf8_injective(token@, method_token(Method::Patch));
        }
        match found {
            Some(m) => Ok(m),
            None => Err(MethodParseError::InvalidMethod),
        }
    }
}

impl Version {
    /// The version named by the bytes `b`.
    pub fn from_bytes(b: &[u8]) -> (r: Option<Version>)
        ensures
            r == version_of_bytes(b@),
    {
        if bytes_eq(b, "HTTP/1.1".as_bytes()) {
            Some(Version::Http11)
        } else if bytes_eq(b, "HTTP/2".as_bytes()) {
            Some(Version::Http2)
        } else if bytes_eq(b, "HTTP/3".as_bytes()) {
            Some(Version::Http3)
        } else {
            None
        }
    }

    /// The version whose canonical token is exactly `token`.
    pub fn parse(token: &str) -> (r: Result<Version, VersionParseError>)
        ensures
            r matches Ok(v) ==> version_of_token(token@) == Some(v),
            r is Err ==> version_of_token(token@) is None,
    {
        let found = Version::from_bytes(token.as_bytes());
        proof {
            lemma_encode_utf8_injective(token@, version_token(Version::Http11));
            lemma_encode_utf8_injective(token@, version_token(Version::Http2));
            lemma_encode_utf8_injective(token@, version_token(Version::Http3));
        }
        match found {
            Some(v) => Ok(v),
            None => Err(VersionParseError::InvalidVersion),
        }
    }
}


/// Why no message could be decoded.
#[derive(Clone, Copy, Debug, PartialEq, Eq, Structural)]
pub enum MessageParseError {
    /// The stream ended before a whole start line and header block arrived.
    ConnectionClosed,
    /// The start line does not have three fields, or they do not parse.
    RequestLineParse,
    /// A header line has no `": "` separator, or is not UTF-8.
    Header,
    /// The `Content-Length` header is not a non-negative integer.
    ContentLength,
    /// The stream ended before the whole body arrived.
    BodyRead,
}

/// A header block: names and values as received, names unique.
pub type HeaderList = Vec<(String, String)>;

/// The text of a header block.
pub type HeadersView = Seq<(Seq<char>, Seq<char>)>;

/// The text of a header block, field by field.
pub open spec fn headers_view(hs: Seq<(String, String)>) -> HeadersView {
    hs.map_values(|p: (String, String)| (p.0@, p.1@))
}

/// An HTTP request.
pub struct Request {
    pub method: Method,
    pub resource: String,
    pub version: Version,
    pub headers: HeaderList,
    pub body: Vec<u8>,
}

/// An HTTP response.
pub struct Response {
    pub version: Version,
    pub code: u32,
    pub message: String,
    pub headers: HeaderList,
    pub body: Vec<u8>,
}

/// A decoded message: exactly one of a request or a response.
pub enum Message {
    Request(Request),
    Response(Response),
}

/// What a request holds.
pub struct RequestView {
    pub method: Method,
    pub resource: Seq<char>,
    pub version: Version,
    pub headers: HeadersView,
    pub body: Seq<u8>,
}

/// What a response holds.
pub struct ResponseView {
    pub version: Version,
    pub code: u32,
    pub message: Seq<char>,
    pub headers: HeadersView,
    pub body: Seq<u8>,
}

/// What a message holds.
pub enum MessageView {
    Request(RequestView),
    Response(ResponseView),
}

impl View for Request {
    type V = RequestView;

    open spec fn view(&self) -> RequestView {
        RequestView {
            method: self.method,
            resource: self.resource@,
            version: self.version,
            headers: headers_view(self.headers@),
            body: self.body@,
        }
    }
}

impl View for Response {
    type V = ResponseView;

    open spec fn view(&self) -> ResponseView {
        ResponseView {
            version: self.version,
            code: self.code,
            message: self.message@,
            headers: headers_view(self.headers@),
            body: self.body@,
        }
    }
}

impl View for Message {
    type V = MessageView;

    open spec fn view(&self) -> MessageView {
        match self {
            Message::Request(r) => MessageView::Request(r@),
            Message::Response(r) => MessageView::Response(r@),
        }
    }
}

impl From<Request> for Message {
    fn from(value: Request) -> (r: Message) {
        Message::Request(value)
    }
}

impl vstd::std_specs::convert::FromSpecImpl<Request> for Message {
    open spec fn obeys_from_spec() -> bool {
        true
    }

    open spec fn from_spec(v: Request) -> Message {
        Message::Request(v)
    }
}

impl From<Response> for Message {
    fn from(value: Response) -> (r: Message) {
        Message::Response(value)
    }
}

impl vstd::std_specs::convert::FromSpecImpl<Response> for Message {
    open spec fn obeys_from_spec() -> bool {
        true
    }

    open spec fn from_spec(v: Response) -> Message {
        Message::Response(v)
    }
}

impl MessageParseError {
    /// A sentence that says what went wrong.
    pub fn describe(&self) -> (r: &'static str)
        ensures
            r@ == (match *self {
                MessageParseError::ConnectionClosed => "the connection was closed"@,
                MessageParseError::RequestLineParse => "failed to parse request line"@,
                MessageParseError::Header => "failed to parse header"@,
                MessageParseError::ContentLength => "failed to parse content length"@,
                MessageParseError::BodyRead => "the connection closed before the whole body arrived"@,
            }),
    {
        match self {
            MessageParseError::ConnectionClosed => "the connection was closed",
            MessageParseError::RequestLineParse => "failed to parse request line",
            MessageParseError::Header => "failed to parse header",
            MessageParseError::ContentLength => "failed to parse content length",
            MessageParseError::BodyRead => "the connection closed before the whole body arrived",
        }
    }
}

impl std::str::FromStr for Method {
    type Err = MethodParseError;

    fn from_str(s: &str) -> (r: Result<Method, MethodParseError>)
        ensures
            r matches Ok(m) ==> method_of_token(s@) == Some(m),
            r is Err ==> method_of_token(s@) is None,
    {
        Method::parse(s)
    }
}

impl std::str::FromStr for Version {
    type Err = VersionParseError;

    fn from_str(s: &str) -> (r: Result<Version, VersionParseError>)
        ensures
            r matches Ok(v) ==> version_of_token(s@) == Some(v),
            r is Err ==> version_of_token(s@) is None,
    {
        Version::parse(s)
    }
}

} // verus!
