use vstd::prelude::*;
use vstd::string::*;
use vstd::utf8::*;

use crate::bytes::{
    find_byte, find_byte_exec, find_sep, find_sep_exec, lemma_find_byte, lemma_find_sep,
    parse_bounded,
    parse_bounded_u64, push_bytes, text_of,
};
use crate::message::{
    HeaderList, HeadersView, Message, MessageParseError, MessageView, Method, Request, RequestView, Response,
    ResponseView, Version, headers_view, method_of_bytes, version_of_bytes,
};

verus! {

/// A line without a final carriage return, if it has one.
pub open spec fn strip_cr(l: Seq<u8>) -> Seq<u8> {
    if l.len() > 0 && l.last() == 13u8 {
        l.drop_last()
    } else {
        l
    }
}

/// The line that starts at `i`, without its `\n` or `\r\n`, and where the next
/// one starts; none if no `\n` ends it.
pub open spec fn read_line(s: Seq<u8>, i: int) -> Option<(Seq<u8>, int)> {
    let j = find_byte(s, 10u8, i);
    if j < s.len() {
        Some((strip_cr(s.subrange(i, j)), j + 1))
    } else {
        None
    }
}

/// What a start line says.
pub enum StartLineView {
    Request(Method, Seq<char>, Version),
    Response(Version, u32, Seq<char>),
}

/// The start line `l`, split on its first two spaces and classified by its
/// first field: a method makes a request line, a version a status line.
pub open spec fn parse_start_line(l: Seq<u8>) -> Result<StartLineView, MessageParseError> {
    let a = find_byte(l, 32u8, 0);
    let b = find_byte(l, 32u8, a + 1);
    if a >= l.len() || b >= l.len() {
        Err(MessageParseError::RequestLineParse)
    } else {
        let f0 = l.subrange(0, a);
        let f1 = l.subrange(a + 1, b);
        let f2 = l.subrange(b + 1, l.len() as int);
        match method_of_bytes(f0) {
            Some(m) => match version_of_bytes(f2) {
                Some(v) => if valid_utf8(f1) {
                    Ok(StartLineView::Request(m, decode_utf8(f1), v))
                } else {
                    Err(MessageParseError::RequestLineParse)
                },
                None => Err(MessageParseError::RequestLineParse),
            },
            None => match version_of_bytes(f0) {
                Some(v) => match parse_bounded(f1, u32::MAX as nat) {
                    Some(c) => if valid_utf8(f2) {
                        Ok(StartLineView::Response(v, c as u32, decode_utf8(f2)))
                    } else {
                        Err(MessageParseError::RequestLineParse)
                    },
                    None => Err(MessageParseError::RequestLineParse),
                },
                None => Err(MessageParseError::RequestLineParse),
            },
        }
    }
}

/// The first position at or after `i` of a header named `k`, or `hs.len()`.
pub open spec fn key_index(hs: HeadersView, k: Seq<char>, i: int) -> int
    decreases hs.len() - i,
{
    if i >= hs.len() {
        hs.len() as int
    } else if hs[i].0 == k {
        i
    } else {
        key_index(hs, k, i + 1)
    }
}

/// The value of the header named `k`, if there is one.
pub open spec fn header_get(hs: HeadersView, k: Seq<char>) -> Option<Seq<char>> {
    let j = key_index(hs, k, 0);
    if j < hs.len() {
        Some(hs[j].1)
    } else {
        None
    }
}

/// `hs` with header `k` set to `v`: a header of that name keeps its place and
/// takes the new value; otherwise the header goes last.
pub open spec fn header_insert(hs: HeadersView, k: Seq<char>, v: Seq<char>) -> HeadersView {
    let j = key_index(hs, k, 0);
    if j < hs.len() {
        hs.update(j, (k, v))
    } else {
        hs.push((k, v))
    }
}

/// The header lines from `i` up to the blank line that ends them, added to
/// `acc`, and where the body starts.
pub open spec fn parse_headers(s: Seq<u8>, i: int, acc: HeadersView) -> Result<
    (HeadersView, int),
    MessageParseError,
>
    decreases s.len() - i,
{
    match read_line(s, i) {
        None => Err(MessageParseError::ConnectionClosed),
        Some((l, n)) => if l.len() == 0 {
            Ok((acc, n))
        } else {
            let c = find_sep(l, 0);
            let k = l.subrange(0, c);
            let v = l.subrange(c + 2, l.len() as int);
            if c >= l.len() || !valid_utf8(k) || !valid_utf8(v) {
                Err(MessageParseError::Header)
            } else if i < n <= s.len() {
                parse_headers(s, n, header_insert(acc, decode_utf8(k), decode_utf8(v)))
            } else {
                // a line always ends past where it starts
                Err(MessageParseError::ConnectionClosed)
            }
        },
    }
}

/// No two headers share a name.
pub open spec fn unique_names(hs: HeadersView) -> bool {
    forall|i: int, j: int| 0 <= i < j < hs.len() ==> #[trigger] hs[i].0 != #[trigger] hs[j].0
}

/// The headers of a message.
pub open spec fn message_headers(m: MessageView) -> HeadersView {
    match m {
        MessageView::Request(r) => r.headers,
        MessageView::Response(r) => r.headers,
    }
}

/// What a search for a name from `i` finds: no header of that name before
/// the position, one at it.
pub proof fn lemma_key_index(hs: HeadersView, k: Seq<char>, i: int)
    requires
        0 <= i <= hs.len(),
    ensures
        i <= key_index(hs, k, i) <= hs.len(),
        key_index(hs, k, i) < hs.len() ==> hs[key_index(hs, k, i)].0 == k,
        forall|j: int| i <= j < key_index(hs, k, i) ==> #[trigger] hs[j].0 != k,
    decreases hs.len() - i,
{
    if i < hs.len() && hs[i].0 != k {
        lemma_key_index(hs, k, i + 1);
    }
}

/// Setting a header keeps the names distinct.
pub proof fn lemma_insert_unique(hs: HeadersView, k: Seq<char>, v: Seq<char>)
    requires
        unique_names(hs),
    ensures
        unique_names(header_insert(hs, k, v)),
{
    lemma_key_index(hs, k, 0);
    let r = header_insert(hs, k, v);
    assert forall|i: int, j: int| 0 <= i < j < r.len() implies #[trigger] r[i].0 != #[trigger] r[j].0 by {
        if key_index(hs, k, 0) == hs.len() && j == hs.len() {
            assert(r[i] == hs[i]);
        }
    }
}

/// A header block that reads, read after headers with distinct names, holds
/// distinct names.
pub proof fn lemma_parse_headers_unique(s: Seq<u8>, i: int, acc: HeadersView)
    requires
        unique_names(acc),
    ensures
        parse_headers(s, i, acc) matches Ok((hs, _)) ==> unique_names(hs),
    decreases s.len() - i,
{
    if let Some((l, n)) = read_line(s, i) {
        if l.len() != 0 {
            let c = find_sep(l, 0);
            let k = l.subrange(0, c);
            let v = l.subrange(c + 2, l.len() as int);
            if !(c >= l.len() || !valid_utf8(k) || !valid_utf8(v)) && i < n <= s.len() {
                lemma_insert_unique(acc, decode_utf8(k), decode_utf8(v));
                lemma_parse_headers_unique(s, n, header_insert(acc, decode_utf8(k), decode_utf8(v)));
            }
        }
    }
}

/// The name of the header that gives the body's length.
pub open spec fn content_length_name() -> Seq<char> {
    "Content-Length"@
}

/// The body length that the headers give: `Content-Length` if present, else 0.
pub open spec fn body_length(hs: HeadersView) -> Result<nat, MessageParseError> {
    match header_get(hs, content_length_name()) {
        None => Ok(0),
        Some(v) => match parse_bounded(encode_utf8(v), usize::MAX as nat) {
            Some(n) => Ok(n),
            None => Err(MessageParseError::ContentLength),
        },
    }
}

/// The message that starts `s`, and how many bytes of `s` it takes.
pub open spec fn spec_decode(s: Seq<u8>) -> Result<(MessageView, int), MessageParseError> {
    match read_line(s, 0) {
        None => Err(MessageParseError::ConnectionClosed),
        Some((line, n)) => match parse_start_line(line) {
            Err(e) => Err(e),
            Ok(start) => match parse_headers(s, n, Seq::empty()) {
                Err(e) => Err(e),
                Ok((hs, m)) => match body_length(hs) {
                    Err(e) => Err(e),
                    Ok(len) => if m + len <= s.len() {
                        let body = s.subrange(m, m + len);
                        let msg = match start {
                            StartLineView::Request(method, resource, version) => MessageView::Request(
                                RequestView { method, resource, version, headers: hs, body },
                            ),
                            StartLineView::Response(version, code, message) => MessageView::Response(
                                ResponseView { version, code, message, headers: hs, body },
                            ),
                        };
                        Ok((msg, m + len))
                    } else {
                        Err(MessageParseError::BodyRead)
                    },
                },
            },
        },
    }
}

/// A decoding result, seen through the views of its message.
pub open spec fn decoded_view(r: Result<(Message, usize), MessageParseError>) -> Result<
    (MessageView, int),
    MessageParseError,
> {
    match r {
        Ok((m, n)) => Ok((m@, n as int)),
        Err(e) => Err(e),
    }
}


/// A decoded start line.
pub enum StartLine {
    Request(Method, String, Version),
    Response(Version, u32, String),
}

impl View for StartLine {
    type V = StartLineView;

    open spec fn view(&self) -> StartLineView {
        match self {
            StartLine::Request(m, r, v) => StartLineView::Request(*m, r@, *v),
            StartLine::Response(v, c, t) => StartLineView::Response(*v, *c, t@),
        }
    }
}

/// The text that `b` encodes, if `b` is UTF-8.
fn text_checked(b: &[u8]) -> (r: Option<String>)
    ensures
        r is Some <==> valid_utf8(b@),
        r matches Some(t) ==> t@ == decode_utf8(b@),
{
    let t = text_of(b);
    proof {
        if t is Some {
            encode_utf8_decode_utf8(t->0@);
        }
    }
    t
}

/// Finds the line that starts at `i`: where its text ends and where the next
/// line starts.
fn read_line_exec(s: &[u8], i: usize) -> (r: Option<(usize, usize)>)
    requires
        i <= s@.len(),
    ensures
        r is None <==> read_line(s@, i as int) is None,
        r matches Some((e, n)) ==> i <= e < n <= s@.len() && read_line(s@, i as int) == Some(
            (s@.subrange(i as int, e as int), n as int),
        ),
{
    let j = find_byte_exec(s, 10u8, i);
    proof {
        lemma_find_byte(s@, 10u8, i as int);
    }
    if j >= s.len() {
        return None;
    }
    if j > i && s[j - 1] == 13u8 {
        assert(strip_cr(s@.subrange(i as int, j as int)) == s@.subrange(i as int, j - 1));
        Some((j - 1, j + 1))
    } else {
        assert(strip_cr(s@.subrange(i as int, j as int)) == s@.subrange(i as int, j as int));
        Some((j, j + 1))
    }
}

/// Splits and classifies a start line.
fn parse_start(l: &[u8]) -> (r: Result<StartLine, MessageParseError>)
    ensures
        (match r {
            Ok(x) => Ok(x@),
            Err(e) => Err(e),
        }) == parse_start_line(l@),
{
    let a = find_byte_exec(l, 32u8, 0);
    proof {
        lemma_find_byte(l@, 32u8, 0);
    }
    if a >= l.len() {
        return Err(MessageParseError::RequestLineParse);
    }
    let b = find_byte_exec(l, 32u8, a + 1);
    proof {
        lemma_find_byte(l@, 32u8, a + 1);
    }
    if b >= l.len() {
        return Err(MessageParseError::RequestLineParse);
    }
    let f0 = &l[0..a];
    let f1 = &l[a + 1..b];
    let f2 = &l[b + 1..l.len()];
    assert(f0@ == l@.subrange(0, a as int));
    assert(f1@ == l@.subrange(a + 1, b as int));
    assert(f2@ == l@.subrange(b + 1, l@.len() as int));
    match Method::from_bytes(f0) {
        Some(m) => match Version::from_bytes(f2) {
            Some(v) => match text_checked(f1) {
                Some(resource) => Ok(StartLine::Request(m, resource, v)),
                None => Err(MessageParseError::RequestLineParse),
            },
            None => Err(MessageParseError::RequestLineParse),
        },
        None => match Version::from_bytes(f0) {
            Some(v) => match parse_bounded_u64(f1, u32::MAX as u64) {
                Some(c) => match text_checked(f2) {
                    Some(reason) => Ok(StartLine::Response(v, c as u32, reason)),
                    None => Err(MessageParseError::RequestLineParse),
                },
                None => Err(MessageParseError::RequestLineParse),
            },
            None => Err(MessageParseError::RequestLineParse),
        },
    }
}

/// The first position of a header named `k` in `hs`, or `hs.len()`.
fn key_index_exec(hs: &Vec<(String, String)>, k: &String) -> (r: usize)
    ensures
        r == key_index(headers_view(hs@), k@, 0),
{
    let ghost hv = headers_view(hs@);
    let mut j: usize = 0;
    while j < hs.len()
        invariant
            j <= hs@.len(),
            hv == headers_view(hs@),
            key_index(hv, k@, j as int) == key_index(hv, k@, 0),
        decreases hs@.len() - j,
    {
        assert(hv[j as int].0 == hs@[j as int].0@);
        if hs[j].0 == *k {
            return j;
        }
        j = j + 1;
    }
    j
}

/// Sets header `k` to `v`, keeping the place of a header of that name.
fn insert_header(hs: &mut Vec<(String, String)>, k: String, v: String)
    ensures
        headers_view(final(hs)@) == header_insert(headers_view(old(hs)@), k@, v@),
{
    let j = key_index_exec(hs, &k);
    let ghost kv = k@;
    let ghost vv = v@;
    if j < hs.len() {
        hs.set(j, (k, v));
        assert(headers_view(hs@) == headers_view(old(hs)@).update(j as int, (kv, vv)));
    } else {
        hs.push((k, v));
        assert(headers_view(hs@) == headers_view(old(hs)@).push((kv, vv)));
    }
}

/// Reads the header lines from `i` up to the blank line that ends them.
fn parse_header_block(s: &[u8], i: usize) -> (r: Result<(Vec<(String, String)>, usize), MessageParseError>)
    requires
        i <= s@.len(),
    ensures
        (match r {
            Ok((hs, n)) => Ok((headers_view(hs@), n as int)),
            Err(e) => Err(e),
        }) == parse_headers(s@, i as int, Seq::empty()),
        r matches Ok((hs, n)) ==> n <= s@.len(),
{
    let mut hs: Vec<(String, String)> = Vec::new();
    let mut pos: usize = i;
    assert(headers_view(hs@) == Seq::<(Seq<char>, Seq<char>)>::empty());
    loop
        invariant
            pos <= s@.len(),
            parse_headers(s@, pos as int, headers_view(hs@)) == parse_headers(
                s@,
                i as int,
                Seq::empty(),
            ),
        decreases s@.len() - pos,
    {
        match read_line_exec(s, pos) {
            None => {
                return Err(MessageParseError::ConnectionClosed);
            },
            Some((e, n)) => {
                if e == pos {
                    return Ok((hs, n));
                }
                let l = &s[pos..e];
                assert(l@ == s@.subrange(pos as int, e as int));
                let c = find_sep_exec(l);
                if c >= l.len() {
                    return Err(MessageParseError::Header);
                }
                proof {
                    lemma_find_sep(l@, 0);
                }
                let kb = &l[0..c];
                let vb = &l[c + 2..l.len()];
                assert(kb@ == l@.subrange(0, c as int));
                assert(vb@ == l@.subrange(c + 2, l@.len() as int));
                let k = text_checked(kb);
                let v = text_checked(vb);
                match (k, v) {
                    (Some(k), Some(v)) => {
                        insert_header(&mut hs, k, v);
                        pos = n;
                    },
                    _ => {
                        return Err(MessageParseError::Header);
                    },
                }
            },
        }
    }
}

/// The body length that the headers give: `Content-Length` if present, else 0.
fn body_length_exec(hs: &Vec<(String, String)>) -> (r: Result<usize, MessageParseError>)
    ensures
        (match r {
            Ok(n) => Ok(n as nat),
            Err(e) => Err(e),
        }) == body_length(headers_view(hs@)),
{
    let name = String::from_str("Content-Length");
    let j = key_index_exec(hs, &name);
    if j >= hs.len() {
        return Ok(0);
    }
    let ghost hv = headers_view(hs@);
    assert(hv[j as int].1 == hs@[j as int].1@);
    match parse_bounded_u64(hs[j].1.as_str().as_bytes(), usize::MAX as u64) {
        Some(n) => Ok(n as usize),
        None => Err(MessageParseError::ContentLength),
    }
}

/// Decodes the message that starts `s`; on success also says how many bytes
/// of `s` it took.
pub fn decode(s: &[u8]) -> (r: Result<(Message, usize), MessageParseError>)
    ensures
        decoded_view(r) == spec_decode(s@),
        r matches Ok((m, _)) ==> unique_names(message_headers(m@)),
{
    let (e, n) = match read_line_exec(s, 0) {
        None => {
            return Err(MessageParseError::ConnectionClosed);
        },
        Some(x) => x,
    };
    let line = &s[0..e];
    assert(line@ == s@.subrange(0, e as int));
    let start = match parse_start(line) {
        Ok(x) => x,
        Err(err) => {
            return Err(err);
        },
    };
    proof {
        lemma_parse_headers_unique(s@, n as int, Seq::empty());
    }
    let (headers, m) = match parse_header_block(s, n) {
        Ok(x) => x,
        Err(err) => {
            return Err(err);
        },
    };
    let rest = &s[m..s.len()];
    assert(rest@ == s@.subrange(m as int, s@.len() as int));
    let msg = match start {
        StartLine::Request(method, resource, version) => match Request::new(
            method,
            resource.as_str(),
            version,
            headers,
            rest,
        ) {
            Ok(r) => Message::Request(r),
            Err(err) => {
                return Err(err);
            },
        },
        StartLine::Response(version, code, message) => match Response::new(
            version,
            code,
            message.as_str(),
            headers,
            rest,
        ) {
            Ok(r) => Message::Response(r),
            Err(err) => {
                return Err(err);
            },
        },
    };
    let used = match &msg {
        Message::Request(r) => r.body.len(),
        Message::Response(r) => r.body.len(),
    };
    assert(s@.subrange(m as int, m + used) == rest@.subrange(0, used as int));
    Ok((msg, m + used))
}

/// The body that the headers `hs` call for, taken from the start of `rest`.
pub open spec fn take_body(hs: HeadersView, rest: Seq<u8>) -> Result<Seq<u8>, MessageParseError> {
    match body_length(hs) {
        Err(e) => Err(e),
        Ok(n) => if n <= rest.len() {
            Ok(rest.subrange(0, n as int))
        } else {
            Err(MessageParseError::BodyRead)
        },
    }
}

/// Copies the body that the headers call for from the start of `rest`.
fn read_body(headers: &Vec<(String, String)>, rest: &[u8]) -> (r: Result<Vec<u8>, MessageParseError>)
    ensures
        (match r {
            Ok(b) => Ok(b@),
            Err(e) => Err(e),
        }) == take_body(headers_view(headers@), rest@),
{
    let len = match body_length_exec(headers) {
        Ok(x) => x,
        Err(err) => {
            return Err(err);
        },
    };
    if len > rest.len() {
        return Err(MessageParseError::BodyRead);
    }
    let mut body: Vec<u8> = Vec::new();
    push_bytes(&mut body, &rest[0..len]);
    Ok(body)
}

impl Request {
    /// A request with the given start line and headers, whose body is the
    /// number of bytes that `Content-Length` gives (none without it), read
    /// from the start of `body`.
    pub fn new(
        method: Method,
        resource: &str,
        version: Version,
        headers: HeaderList,
        body: &[u8],
    ) -> (r: Result<Request, MessageParseError>)
        ensures
            (match take_body(headers_view(headers@), body@) {
                Ok(b) => r matches Ok(q) && q@ == RequestView {
                    method,
                    resource: resource@,
                    version,
                    headers: headers_view(headers@),
                    body: b,
                },
                Err(e) => r == Err::<Request, MessageParseError>(e),
            }),
    {
        match read_body(&headers, body) {
            Ok(b) => Ok(Request { method, resource: String::from_str(resource), version, headers, body: b }),
            Err(e) => Err(e),
        }
    }
}

impl Response {
    /// A response with the given status line and headers, whose body is the
    /// number of bytes that `Content-Length` gives (none without it), read
    /// from the start of `body`.
    pub fn new(
        version: Version,
        errno: u32,
        errstr: &str,
        headers: HeaderList,
        body: &[u8],
    ) -> (r: Result<Response, MessageParseError>)
        ensures
            (match take_body(headers_view(headers@), body@) {
                Ok(b) => r matches Ok(q) && q@ == ResponseView {
                    version,
                    code: errno,
                    message: errstr@,
                    headers: headers_view(headers@),
                    body: b,
                },
                Err(e) => r == Err::<Response, MessageParseError>(e),
            }),
    {
        match read_body(&headers, body) {
            Ok(b) => Ok(Response { version, code: errno, message: String::from_str(errstr), headers, body: b }),
            Err(e) => Err(e),
        }
    }
}

} // verus!
