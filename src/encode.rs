use vstd::prelude::*;
use vstd::string::*;
use vstd::utf8::*;

use crate::bytes::{decimal, lemma_encode_ascii, push_bytes, push_decimal};
use crate::message::{
    HeadersView, Message, MessageView, Request, RequestView, Response, ResponseView,
    headers_view, method_token, version_token,
};

verus! {

/// The line terminator.
pub open spec fn crlf() -> Seq<u8> {
    seq![13u8, 10u8]
}

/// One header on the wire: `name: value` and a line terminator.
pub open spec fn header_line(h: (Seq<char>, Seq<char>)) -> Seq<u8> {
    encode_utf8(h.0) + seq![58u8, 32u8] + encode_utf8(h.1) + crlf()
}

/// The header lines of `hs`, in order.
pub open spec fn wire_headers(hs: HeadersView) -> Seq<u8>
    decreases hs.len(),
{
    if hs.len() == 0 {
        Seq::empty()
    } else {
        header_line(hs[0]) + wire_headers(hs.drop_first())
    }
}

/// A request on the wire: request line, headers, blank line, body.
pub open spec fn wire_request(r: RequestView) -> Seq<u8> {
    encode_utf8(method_token(r.method)) + seq![32u8] + encode_utf8(r.resource) + seq![32u8]
        + encode_utf8(version_token(r.version)) + crlf() + wire_headers(r.headers) + crlf()
        + r.body
}

/// A response on the wire: status line, headers, blank line, body.
pub open spec fn wire_response(r: ResponseView) -> Seq<u8> {
    encode_utf8(version_token(r.version)) + seq![32u8] + decimal(r.code as nat) + seq![32u8]
        + encode_utf8(r.message) + crlf() + wire_headers(r.headers) + crlf() + r.body
}

/// A message on the wire.
pub open spec fn wire(m: MessageView) -> Seq<u8> {
    match m {
        MessageView::Request(r) => wire_request(r),
        MessageView::Response(r) => wire_response(r),
    }
}

/// Adding a header adds its line at the end.
pub proof fn lemma_wire_headers_push(hs: HeadersView, h: (Seq<char>, Seq<char>))
    ensures
        wire_headers(hs.push(h)) == wire_headers(hs) + header_line(h),
    decreases hs.len(),
{
    if hs.len() == 0 {
        assert(hs.push(h).drop_first() == Seq::<(Seq<char>, Seq<char>)>::empty());
        assert(hs.push(h)[0] == h);
        assert(wire_headers(hs.push(h).drop_first()) == Seq::<u8>::empty());
        assert(wire_headers(hs.push(h)) =~= header_line(h));
        assert(wire_headers(hs) =~= Seq::<u8>::empty());
        assert(wire_headers(hs) + header_line(h) =~= header_line(h));
    } else {
        assert(hs.push(h).drop_first() == hs.drop_first().push(h));
        assert(hs.push(h)[0] == hs[0]);
        lemma_wire_headers_push(hs.drop_first(), h);
        assert(wire_headers(hs.push(h)) =~= header_line(hs[0]) + (wire_headers(hs.drop_first())
            + header_line(h)));
    }
}

/// The bytes of the separators that the wire format uses.
proof fn lemma_separators()
    ensures
        encode_utf8(" "@) == seq![32u8],
        encode_utf8(": "@) == seq![58u8, 32u8],
        encode_utf8("\r\n"@) == crlf(),
{
    reveal_strlit(" ");
    reveal_strlit(": ");
    reveal_strlit("\r\n");
    lemma_encode_ascii(" "@, seq![32u8]);
    lemma_encode_ascii(": "@, seq![58u8, 32u8]);
    lemma_encode_ascii("\r\n"@, crlf());
}

/// Appends the bytes of `s` to `out`.
fn push_text(out: &mut Vec<u8>, s: &str)
    ensures
        final(out)@ == old(out)@ + encode_utf8(s@),
{
    let b = s.as_bytes();
    assert(b@ == s.spec_bytes());
    push_bytes(out, b);
}

/// Appends the header lines and the blank line that ends them.
fn push_headers(out: &mut Vec<u8>, hs: &Vec<(String, String)>)
    ensures
        final(out)@ == old(out)@ + wire_headers(headers_view(hs@)) + crlf(),
{
    let ghost hv = headers_view(hs@);
    let mut i: usize = 0;
    assert(hv.subrange(0, 0) == Seq::<(Seq<char>, Seq<char>)>::empty());
    while i < hs.len()
        invariant
            i <= hs@.len(),
            hv == headers_view(hs@),
            out@ == old(out)@ + wire_headers(hv.subrange(0, i as int)),
        decreases hs@.len() - i,
    {
        push_text(out, hs[i].0.as_str());
        push_text(out, ": ");
        push_text(out, hs[i].1.as_str());
        push_text(out, "\r\n");
        proof {
            lemma_separators();
            assert(hv.subrange(0, i + 1) == hv.subrange(0, i as int).push(hv[i as int]));
            lemma_wire_headers_push(hv.subrange(0, i as int), hv[i as int]);
            assert(hv[i as int] == (hs@[i as int].0@, hs@[i as int].1@));
            assert(out@ =~= old(out)@ + wire_headers(hv.subrange(0, i + 1)));
        }
        i = i + 1;
    }
    assert(hv.subrange(0, i as int) == hv);
    push_text(out, "\r\n");
    proof {
        lemma_separators();
    }
}

impl Request {
    /// The exact wire bytes of this request.
    pub fn encode(&self) -> (r: Vec<u8>)
        ensures
            r@ == wire_request(self@),
    {
        let mut out: Vec<u8> = Vec::new();
        push_text(&mut out, self.method.to_token());
        push_text(&mut out, " ");
        push_text(&mut out, self.resource.as_str());
        push_text(&mut out, " ");
        push_text(&mut out, self.version.to_token());
        push_text(&mut out, "\r\n");
        push_headers(&mut out, &self.headers);
        push_bytes(&mut out, self.body.as_slice());
        proof {
            lemma_separators();
        }
        assert(out@ =~= wire_request(self@));
        out
    }
}

impl Response {
    /// The exact wire bytes of this response.
    pub fn encode(&self) -> (r: Vec<u8>)
        ensures
            r@ == wire_response(self@),
    {
        let mut out: Vec<u8> = Vec::new();
        push_text(&mut out, self.version.to_token());
        push_text(&mut out, " ");
        push_decimal(&mut out, self.code as u64);
        push_text(&mut out, " ");
        push_text(&mut out, self.message.as_str());
        push_text(&mut out, "\r\n");
        push_headers(&mut out, &self.headers);
        push_bytes(&mut out, self.body.as_slice());
        proof {
            lemma_separators();
        }
        assert(out@ =~= wire_response(self@));
        out
    }
}

impl Message {
    /// The exact wire bytes of this message.
    pub fn encode(&self) -> (r: Vec<u8>)
        ensures
            r@ == wire(self@),
    {
        match self {
            Message::Request(req) => req.encode(),
            Message::Response(res) => res.encode(),
        }
    }
}

} // verus!
