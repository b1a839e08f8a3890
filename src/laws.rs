use vstd::prelude::*;
use vstd::utf8::*;

use crate::bytes::{
    decimal, digits_value, find_byte, find_sep, is_digit, lemma_decimal_digits, lemma_find_byte,
    lemma_find_byte_at, lemma_find_sep_at, parse_bounded, parse_decimal, unsigned_digits,
};
use crate::connection::{LoopStepView, spec_next_step, trace};
use crate::decode::{
    body_length, header_insert, unique_names, key_index, parse_headers, parse_start_line, read_line,
    spec_decode, strip_cr, StartLineView,
};
use crate::encode::{crlf, header_line, wire, wire_headers, wire_request, wire_response};
use crate::message::{
    HeadersView, MessageParseError, MessageView, Method, RequestView, ResponseView, Version,
    lemma_encode_utf8_injective, method_of_bytes, method_of_token, method_token,
    version_of_bytes, version_of_token, version_token,
};

verus! {

/// Text that stays on one line: no carriage return or line feed.
pub open spec fn line_text(t: Seq<char>) -> bool {
    forall|i: int| 0 <= i < t.len() ==> #[trigger] t[i] != '\r' && t[i] != '\n'
}

/// Text that also holds no space.
pub open spec fn word_text(t: Seq<char>) -> bool {
    line_text(t) && forall|i: int| 0 <= i < t.len() ==> #[trigger] t[i] != ' '
}

/// Text that can name a header: ASCII on one line, in which no colon is
/// followed by a space.
pub open spec fn name_text(t: Seq<char>) -> bool {
    &&& is_ascii_chars(t)
    &&& line_text(t)
    &&& forall|i: int| 0 <= i < t.len() - 1 ==> !(#[trigger] t[i] == ':' && t[i + 1] == ' ')
}

/// Headers that survive the wire: ASCII names without `": "`, all distinct,
/// and values on one line.
pub open spec fn sendable_headers(hs: HeadersView) -> bool {
    &&& forall|i: int| 0 <= i < hs.len() ==> name_text(#[trigger] hs[i].0) && line_text(hs[i].1)
    &&& unique_names(hs)
}

/// A message that survives the wire: sendable headers, a resource on one line
/// without spaces, a reason phrase on one line, and a body whose length is what the
/// headers say (`Content-Length`, or an empty body without one).
pub open spec fn sendable(m: MessageView) -> bool {
    match m {
        MessageView::Request(r) => word_text(r.resource) && sendable_headers(r.headers)
            && body_length(r.headers) == Ok::<nat, MessageParseError>(
            r.body.len(),
        ),
        MessageView::Response(r) => line_text(r.message) && sendable_headers(r.headers)
            && body_length(r.headers) == Ok::<nat, MessageParseError>(
            r.body.len(),
        ),
    }
}

/// Each method's token names that method, as text and as bytes.
pub proof fn lemma_method_token_inverse(m: Method)
    ensures
        method_of_token(method_token(m)) == Some(m),
        method_of_bytes(encode_utf8(method_token(m))) == Some(m),
        word_text(method_token(m)),
{
    reveal_strlit("GET");
    reveal_strlit("HEAD");
    reveal_strlit("POST");
    reveal_strlit("PUT");
    reveal_strlit("DELETE");
    reveal_strlit("CONNECT");
    reveal_strlit("OPTIONS");
    reveal_strlit("TRACE");
    reveal_strlit("PATCH");
    let t = method_token(m);
    lemma_encode_utf8_injective(t, method_token(Method::Get));
    lemma_encode_utf8_injective(t, method_token(Method::Head));
    lemma_encode_utf8_injective(t, method_token(Method::Post));
    lemma_encode_utf8_injective(t, method_token(Method::Put));
    lemma_encode_utf8_injective(t, method_token(Method::Delete));
    lemma_encode_utf8_injective(t, method_token(Method::Connect));
    lemma_encode_utf8_injective(t, method_token(Method::Options));
    lemma_encode_utf8_injective(t, method_token(Method::Trace));
    lemma_encode_utf8_injective(t, method_token(Method::Patch));
    assert forall|i: int| 0 <= i < t.len() implies ('\0' <= #[trigger] t[i] <= '\u{7f}' && t[i]
        != '\r' && t[i] != '\n' && t[i] != ' ') by {
        assert(i < 7);
        if i == 0 {
        } else if i == 1 {
        } else if i == 2 {
        } else if i == 3 {
        } else if i == 4 {
        } else if i == 5 {
        } else {
        }
    }
    match m {
        Method::Get => {},
        Method::Head => {},
        Method::Post => {},
        Method::Put => {},
        Method::Delete => {},
        Method::Connect => {},
        Method::Options => {},
        Method::Trace => {},
        Method::Patch => {},
    }
}

/// Each version's token names that version, as text and as bytes, and names
/// no method.
pub proof fn lemma_version_token_inverse(v: Version)
    ensures
        version_of_token(version_token(v)) == Some(v),
        version_of_bytes(encode_utf8(version_token(v))) == Some(v),
        method_of_bytes(encode_utf8(version_token(v))) is None,
        word_text(version_token(v)),
{
    reveal_strlit("HTTP/1.1");
    reveal_strlit("HTTP/2");
    reveal_strlit("HTTP/3");
    reveal_strlit("GET");
    reveal_strlit("HEAD");
    reveal_strlit("POST");
    reveal_strlit("PUT");
    reveal_strlit("DELETE");
    reveal_strlit("CONNECT");
    reveal_strlit("OPTIONS");
    reveal_strlit("TRACE");
    reveal_strlit("PATCH");
    let t = version_token(v);
    lemma_encode_utf8_injective(t, version_token(Version::Http11));
    lemma_encode_utf8_injective(t, version_token(Version::Http2));
    lemma_encode_utf8_injective(t, version_token(Version::Http3));
    lemma_encode_utf8_injective(t, method_token(Method::Get));
    lemma_encode_utf8_injective(t, method_token(Method::Head));
    lemma_encode_utf8_injective(t, method_token(Method::Post));
    lemma_encode_utf8_injective(t, method_token(Method::Put));
    lemma_encode_utf8_injective(t, method_token(Method::Delete));
    lemma_encode_utf8_injective(t, method_token(Method::Connect));
    lemma_encode_utf8_injective(t, method_token(Method::Options));
    lemma_encode_utf8_injective(t, method_token(Method::Trace));
    lemma_encode_utf8_injective(t, method_token(Method::Patch));
    assert forall|i: int| 0 <= i < t.len() implies ('\0' <= #[trigger] t[i] <= '\u{7f}' && t[i]
        != '\r' && t[i] != '\n' && t[i] != ' ') by {
        assert(i < 8);
        if i == 0 {
        } else if i == 1 {
        } else if i == 2 {
        } else if i == 3 {
        } else if i == 4 {
        } else if i == 5 {
        } else if i == 6 {
        } else {
        }
    }
    assert(t[0] == 'H' && method_token(Method::Delete)[0] == 'D');
    match v {
        Version::Http11 => {},
        Version::Http2 => {
            assert(t[5] != version_token(Version::Http3)[5]);
        },
        Version::Http3 => {
            assert(t[5] != version_token(Version::Http2)[5]);
        },
    }
}

/// Every byte of the encoding of a scalar above `0x7F` has its high bit set;
/// a scalar up to `0x7F` is encoded as itself.
pub proof fn lemma_scalar_bytes(x: u32)
    ensures
        x > 0x7F ==> forall|j: int| 0 <= j < encode_scalar(x).len() ==> #[trigger] encode_scalar(x)[j] >= 0x80,
{
    if x > 0x7F {
        let a = ((x >> 6) & 0x1F) as u8;
        let b = ((x >> 12) & 0x0F) as u8;
        let c = ((x >> 18) & 0x7) as u8;
        let d = (x & 0x3F) as u8;
        let e = ((x >> 6) & 0x3F) as u8;
        let f = ((x >> 12) & 0x3F) as u8;
        lemma_high_bit(0xC0, a);
        lemma_high_bit(0xE0, b);
        lemma_high_bit(0xF0, c);
        lemma_high_bit(0x80, d);
        lemma_high_bit(0x80, e);
        lemma_high_bit(0x80, f);
    }
}

/// A byte with its high bit set keeps it.
pub proof fn lemma_high_bit(a: u8, z: u8)
    requires
        a >= 0x80,
    ensures
        (a | z) >= 0x80,
{
    assert((a | z) >= 0x80) by (bit_vector)
        requires
            a >= 0x80,
    ;
}

/// A character's code lies above zero, and above `0x7F` exactly when the
/// character does.
pub proof fn lemma_char_range(ch: char)
    ensures
        '\0' <= ch,
        (ch <= '\u{7f}') == ((ch as u32) <= 0x7F),
{
}

/// Text without the ASCII character `c` has no byte `c` in its encoding.
pub proof fn lemma_encode_avoids(t: Seq<char>, c: char)
    requires
        c <= '\u{7f}',
        forall|i: int| 0 <= i < t.len() ==> #[trigger] t[i] != c,
    ensures
        forall|i: int| 0 <= i < encode_utf8(t).len() ==> #[trigger] encode_utf8(t)[i] != c as u8,
    decreases t.len(),
{
    if t.len() > 0 {
        let rest = t.drop_first();
        assert forall|i: int| 0 <= i < rest.len() implies #[trigger] rest[i] != c by {
            assert(rest[i] == t[i + 1]);
        }
        lemma_encode_avoids(rest, c);
        let x = t[0] as u32;
        let e = encode_scalar(x);
        assert(encode_utf8(t) == e + encode_utf8(rest));
        if t[0] <= '\u{7f}' {
            let one = seq![t[0]];
            assert(one[0] == t[0]);
            lemma_char_range(t[0]);
            assert(is_ascii_chars(one));
            is_ascii_chars_encode_utf8(one);
            assert(one.drop_first() =~= Seq::<char>::empty());
            assert(encode_utf8(one) =~= e);
            assert(e.len() == 1 && e[0] == t[0] as u8);
        } else {
            lemma_char_range(t[0]);
            assert(x > 0x7F);
            lemma_scalar_bytes(x);
            assert(c as u8 <= 0x7F);
        }
        assert forall|i: int| 0 <= i < encode_utf8(t).len() implies #[trigger] encode_utf8(t)[i]
            != c as u8 by {
            if i < e.len() {
                assert(encode_utf8(t)[i] == e[i]);
            } else {
                assert(encode_utf8(t)[i] == encode_utf8(rest)[i - e.len()]);
            }
        }
    }
}

/// The bytes of one-line text: well-formed UTF-8 that decodes back to the
/// text, with no line break among them.
pub proof fn lemma_line_bytes(t: Seq<char>)
    requires
        line_text(t),
    ensures
        valid_utf8(encode_utf8(t)),
        decode_utf8(encode_utf8(t)) == t,
        forall|i: int|
            0 <= i < encode_utf8(t).len() ==> #[trigger] encode_utf8(t)[i] != 10u8 && encode_utf8(t)[i]
                != 13u8,
{
    encode_utf8_valid_utf8(t);
    encode_utf8_decode_utf8(t);
    lemma_encode_avoids(t, '\n');
    lemma_encode_avoids(t, '\r');
}

/// The bytes of a word hold no space.
pub proof fn lemma_word_bytes(t: Seq<char>)
    requires
        word_text(t),
    ensures
        forall|i: int| 0 <= i < encode_utf8(t).len() ==> #[trigger] encode_utf8(t)[i] != 32u8,
{
    lemma_encode_avoids(t, ' ');
}

/// The bytes of a header name: one per character, and no colon among them
/// is followed by a space.
pub proof fn lemma_name_bytes(t: Seq<char>)
    requires
        name_text(t),
    ensures
        encode_utf8(t).len() == t.len(),
        forall|i: int|
            0 <= i < t.len() - 1 ==> !(#[trigger] encode_utf8(t)[i] == 58u8 && encode_utf8(t)[i + 1]
                == 32u8),
        t.len() > 0 ==> encode_utf8(t)[t.len() - 1] != 10u8,
{
    is_ascii_chars_encode_utf8(t);
    assert forall|i: int| 0 <= i < t.len() - 1 implies !(#[trigger] encode_utf8(t)[i] == 58u8
        && encode_utf8(t)[i + 1] == 32u8) by {
        assert(encode_utf8(t)[i] == t[i] as u8);
        assert(encode_utf8(t)[i + 1] == t[i + 1] as u8);
        assert('\0' <= t[i] <= '\u{7f}');
        assert('\0' <= t[i + 1] <= '\u{7f}');
        assert(!(t[i] == ':' && t[i + 1] == ' '));
    }
}

/// A line `l` followed by a line terminator at `p` is read as `l`.
pub proof fn lemma_read_line(s: Seq<u8>, p: int, l: Seq<u8>, tail: Seq<u8>)
    requires
        0 <= p <= s.len(),
        s.subrange(p, s.len() as int) == l + crlf() + tail,
        forall|i: int| 0 <= i < l.len() ==> #[trigger] l[i] != 10u8,
    ensures
        read_line(s, p) == Some((l, p + l.len() + 2)),
        s.subrange(p + l.len() + 2, s.len() as int) == tail,
{
    let u = s.subrange(p, s.len() as int);
    let j = p + l.len() + 1;
    assert(u.len() == l.len() + 2 + tail.len());
    assert forall|k: int| p <= k < j implies s[k] != 10u8 by {
        assert(s[k] == u[k - p]);
        if k - p < l.len() {
            assert(u[k - p] == l[k - p]);
        } else {
            assert(u[k - p] == 13u8);
        }
    }
    assert(s[j] == u[j - p]);
    assert(u[j - p] == 10u8);
    lemma_find_byte_at(s, 10u8, p, j);
    assert(s.subrange(p, j) =~= l.push(13u8));
    assert(strip_cr(l.push(13u8)) =~= l);
    assert(s.subrange(p + l.len() + 2, s.len() as int) =~= u.subrange(l.len() + 2 as int, u.len() as int));
    assert(u.subrange(l.len() + 2 as int, u.len() as int) =~= tail);
}

/// The decimal writing of `n` parses back to `n`.
pub proof fn lemma_decimal_round_trip(n: nat)
    ensures
        parse_decimal(decimal(n)) == Some(n),
        forall|i: int| 0 <= i < decimal(n).len() ==> #[trigger] decimal(n)[i] != 32u8,
    decreases n,
{
    let d = decimal(n);
    lemma_decimal_digits(n);
    assert(d[0] != 43u8);
    assert(unsigned_digits(d) == d);
    lemma_digits_value_decimal(n);
    assert(forall|i: int| 0 <= i < d.len() ==> is_digit(#[trigger] d[i]));
    assert(parse_decimal(d) == Some(digits_value(d)));
}

/// The digits of the decimal writing of `n` are worth `n`.
pub proof fn lemma_digits_value_decimal(n: nat)
    ensures
        digits_value(decimal(n)) == n,
    decreases n,
{
    lemma_decimal_digits(n);
    if n >= 10 {
        lemma_digits_value_decimal(n / 10);
        assert(decimal(n).drop_last() == decimal(n / 10));
        let d = decimal(n);
        assert(d.last() == (48 + n % 10) as u8);
        assert((d.last() - 48) as nat == n % 10);
        assert(digits_value(d) == digits_value(d.drop_last()) * 10 + (d.last() - 48) as nat);
        assert(digits_value(d.drop_last()) == n / 10);
        assert(n == (n / 10) * 10 + n % 10);
    } else {
        assert(decimal(n).drop_last() =~= Seq::<u8>::empty());
        let d = decimal(n);
        assert(d.last() == (48 + n) as u8);
        assert(digits_value(d) == digits_value(d.drop_last()) * 10 + (d.last() - 48) as nat);
    }
}

/// A name that no header from `i` on has is found nowhere.
pub proof fn lemma_key_index_absent(hs: HeadersView, k: Seq<char>, i: int)
    requires
        0 <= i <= hs.len(),
        forall|j: int| i <= j < hs.len() ==> #[trigger] hs[j].0 != k,
    ensures
        key_index(hs, k, i) == hs.len(),
    decreases hs.len() - i,
{
    if i < hs.len() {
        lemma_key_index_absent(hs, k, i + 1);
    }
}

/// The header lines of `hs` at `p`, then a blank line, are read as `hs`
/// after the headers already read.
pub proof fn lemma_parse_headers(
    s: Seq<u8>,
    p: int,
    acc: HeadersView,
    hs: HeadersView,
    tail: Seq<u8>,
)
    requires
        0 <= p <= s.len(),
        s.subrange(p, s.len() as int) == wire_headers(hs) + crlf() + tail,
        sendable_headers(hs),
        forall|i: int, j: int| 0 <= i < acc.len() && 0 <= j < hs.len() ==> #[trigger] acc[i].0 != #[trigger] hs[j].0,
    ensures
        parse_headers(s, p, acc) == Ok::<(HeadersView, int), MessageParseError>(
            (acc + hs, s.len() - tail.len()),
        ),
    decreases hs.len(),
{
    if hs.len() == 0 {
        assert(wire_headers(hs) + crlf() + tail =~= Seq::<u8>::empty() + crlf() + tail);
        lemma_read_line(s, p, Seq::empty(), tail);
        assert(acc + hs =~= acc);
    } else {
        let h = hs[0];
        let kb = encode_utf8(h.0);
        let vb = encode_utf8(h.1);
        let l = kb + seq![58u8, 32u8] + vb;
        let rest = hs.drop_first();
        let tail2 = wire_headers(rest) + crlf() + tail;
        assert(name_text(h.0) && line_text(h.1));
        lemma_line_bytes(h.0);
        lemma_line_bytes(h.1);
        lemma_name_bytes(h.0);
        assert(header_line(h) == l + crlf());
        assert(wire_headers(hs) + crlf() + tail =~= l + crlf() + tail2);
        assert forall|i: int| 0 <= i < l.len() implies #[trigger] l[i] != 10u8 by {
            if i < kb.len() {
                assert(l[i] == kb[i]);
            } else if i >= kb.len() + 2 {
                assert(l[i] == vb[i - kb.len() - 2]);
            }
        }
        lemma_read_line(s, p, l, tail2);
        let n = p + l.len() + 2;
        assert forall|i: int| 0 <= i < kb.len() implies !(#[trigger] l[i] == 58u8 && l[i + 1]
            == 32u8) by {
            assert(l[i] == kb[i]);
            if i + 1 < kb.len() {
                assert(l[i + 1] == kb[i + 1]);
            } else {
                assert(l[i + 1] == 58u8);
            }
        }
        lemma_find_sep_at(l, 0, kb.len() as int);
        assert(l.subrange(0, kb.len() as int) =~= kb);
        assert(l.subrange(kb.len() + 2 as int, l.len() as int) =~= vb);
        assert forall|j: int| 0 <= j < acc.len() implies #[trigger] acc[j].0 != h.0 by {
            assert(acc[j].0 != hs[0].0);
        }
        lemma_key_index_absent(acc, h.0, 0);
        assert(header_insert(acc, h.0, h.1) == acc.push(h));
        let acc2 = acc.push(h);
        assert(sendable_headers(rest)) by {
            assert forall|i: int, j: int| 0 <= i < j < rest.len() implies #[trigger] rest[i].0
                != #[trigger] rest[j].0 by {
                assert(rest[i] == hs[i + 1] && rest[j] == hs[j + 1]);
            }
            assert forall|i: int| 0 <= i < rest.len() implies name_text(#[trigger] rest[i].0)
                && line_text(rest[i].1) by {
                assert(rest[i] == hs[i + 1]);
            }
        }
        assert forall|i: int, j: int| 0 <= i < acc2.len() && 0 <= j < rest.len() implies #[trigger] acc2[i].0
            != #[trigger] rest[j].0 by {
            assert(rest[j] == hs[j + 1]);
            if i < acc.len() {
                assert(acc2[i] == acc[i]);
            } else {
                assert(acc2[i] == hs[0]);
            }
        }
        assert(s.len() - tail2.len() >= n) by {
            assert(s.subrange(n, s.len() as int).len() == tail2.len());
        }
        lemma_parse_headers(s, n, acc2, rest, tail);
        assert(acc2 + rest =~= acc + hs);
    }
}

/// A start line of three fields, the first two free of spaces, splits into
/// those fields.
pub proof fn lemma_split_start_line(f0: Seq<u8>, f1: Seq<u8>, f2: Seq<u8>)
    requires
        forall|i: int| 0 <= i < f0.len() ==> #[trigger] f0[i] != 32u8,
        forall|i: int| 0 <= i < f1.len() ==> #[trigger] f1[i] != 32u8,
    ensures
        ({
            let l = f0 + seq![32u8] + f1 + seq![32u8] + f2;
            let a = f0.len() as int;
            let b = (f0.len() + 1 + f1.len()) as int;
            &&& find_byte(l, 32u8, 0) == a
            &&& find_byte(l, 32u8, a + 1) == b
            &&& l.subrange(0, a) == f0
            &&& l.subrange(a + 1, b) == f1
            &&& l.subrange(b + 1, l.len() as int) == f2
        }),
{
    let l = f0 + seq![32u8] + f1 + seq![32u8] + f2;
    let a = f0.len() as int;
    let b = (f0.len() + 1 + f1.len()) as int;
    assert forall|k: int| 0 <= k < a implies l[k] != 32u8 by {
        assert(l[k] == f0[k]);
    }
    assert(l[a] == 32u8);
    lemma_find_byte_at(l, 32u8, 0, a);
    assert forall|k: int| a + 1 <= k < b implies l[k] != 32u8 by {
        assert(l[k] == f1[k - a - 1]);
    }
    assert(l[b] == 32u8);
    lemma_find_byte_at(l, 32u8, a + 1, b);
    assert(l.subrange(0, a) =~= f0);
    assert(l.subrange(a + 1, b) =~= f1);
    assert(l.subrange(b + 1, l.len() as int) =~= f2);
}

/// How the decoder reads a start line `line`, the headers `hs`, a blank line
/// and `body`, followed by anything.
pub proof fn lemma_frame(line: Seq<u8>, hs: HeadersView, body: Seq<u8>, rest: Seq<u8>)
    requires
        forall|i: int| 0 <= i < line.len() ==> #[trigger] line[i] != 10u8,
        sendable_headers(hs),
    ensures
        ({
            let s = line + crlf() + wire_headers(hs) + crlf() + body + rest;
            let p = line.len() + 2;
            let q = p + wire_headers(hs).len() + 2;
            &&& read_line(s, 0) == Some((line, p as int))
            &&& parse_headers(s, p as int, Seq::empty()) == Ok::<
                (HeadersView, int),
                MessageParseError,
            >((hs, q as int))
            &&& s.subrange(q as int, (q + body.len()) as int) == body
        }),
{
    let s = line + crlf() + wire_headers(hs) + crlf() + body + rest;
    let tail = wire_headers(hs) + crlf() + (body + rest);
    assert(s =~= line + crlf() + tail);
    assert(s.subrange(0, s.len() as int) == s);
    lemma_read_line(s, 0, line, tail);
    let p = line.len() + 2;
    lemma_parse_headers(s, p as int, Seq::empty(), hs, body + rest);
    assert(Seq::<(Seq<char>, Seq<char>)>::empty() + hs =~= hs);
    let q = p + wire_headers(hs).len() + 2;
    assert(s.subrange(q as int, (q + body.len()) as int) =~= body) by {
        assert forall|i: int| 0 <= i < body.len() implies s[q + i] == body[i] by {
            assert(s[q + i] == tail[q + i - p]);
            assert(tail[q + i - p] == (body + rest)[i]);
        }
    }
}

/// Decoding the wire bytes of a sendable request, whatever follows them,
/// gives back that request and takes exactly its bytes.
pub proof fn lemma_request_round_trip(r: RequestView, rest: Seq<u8>)
    requires
        sendable(MessageView::Request(r)),
    ensures
        spec_decode(wire_request(r) + rest) == Ok::<
            (MessageView, int),
            MessageParseError,
        >((MessageView::Request(r), wire_request(r).len() as int)),
{
    let f0 = encode_utf8(method_token(r.method));
    let f1 = encode_utf8(r.resource);
    let f2 = encode_utf8(version_token(r.version));
    let line = f0 + seq![32u8] + f1 + seq![32u8] + f2;
    lemma_method_token_inverse(r.method);
    lemma_version_token_inverse(r.version);
    lemma_line_bytes(method_token(r.method));
    lemma_word_bytes(method_token(r.method));
    lemma_line_bytes(r.resource);
    lemma_word_bytes(r.resource);
    lemma_line_bytes(version_token(r.version));
    assert forall|i: int| 0 <= i < line.len() implies #[trigger] line[i] != 10u8 by {
        let a = f0.len() as int;
        let b = (f0.len() + 1 + f1.len()) as int;
        if i < a {
            assert(line[i] == f0[i]);
        } else if a < i < b {
            assert(line[i] == f1[i - a - 1]);
        } else if i > b {
            assert(line[i] == f2[i - b - 1]);
        }
    }
    lemma_split_start_line(f0, f1, f2);
    lemma_frame(line, r.headers, r.body, rest);
    assert(wire_request(r) + rest =~= line + crlf() + wire_headers(r.headers) + crlf() + r.body
        + rest);
    assert(parse_start_line(line) == Ok::<StartLineView, MessageParseError>(
        StartLineView::Request(r.method, r.resource, r.version),
    ));
}

/// Decoding the wire bytes of a sendable response, whatever follows them,
/// gives back that response and takes exactly its bytes.
pub proof fn lemma_response_round_trip(r: ResponseView, rest: Seq<u8>)
    requires
        sendable(MessageView::Response(r)),
    ensures
        spec_decode(wire_response(r) + rest) == Ok::<
            (MessageView, int),
            MessageParseError,
        >((MessageView::Response(r), wire_response(r).len() as int)),
{
    let f0 = encode_utf8(version_token(r.version));
    let f1 = decimal(r.code as nat);
    let f2 = encode_utf8(r.message);
    let line = f0 + seq![32u8] + f1 + seq![32u8] + f2;
    lemma_version_token_inverse(r.version);
    lemma_line_bytes(version_token(r.version));
    lemma_word_bytes(version_token(r.version));
    lemma_decimal_round_trip(r.code as nat);
    lemma_decimal_digits(r.code as nat);
    lemma_line_bytes(r.message);
    assert forall|i: int| 0 <= i < line.len() implies #[trigger] line[i] != 10u8 by {
        let a = f0.len() as int;
        let b = (f0.len() + 1 + f1.len()) as int;
        if i < a {
            assert(line[i] == f0[i]);
        } else if a < i < b {
            assert(line[i] == f1[i - a - 1]);
            assert(is_digit(f1[i - a - 1]));
        } else if i > b {
            assert(line[i] == f2[i - b - 1]);
        }
    }
    lemma_split_start_line(f0, f1, f2);
    lemma_frame(line, r.headers, r.body, rest);
    assert(wire_response(r) + rest =~= line + crlf() + wire_headers(r.headers) + crlf() + r.body
        + rest);
    assert(parse_bounded(f1, u32::MAX as nat) == Some(r.code as nat));
    assert(parse_start_line(line) == Ok::<StartLineView, MessageParseError>(
        StartLineView::Response(r.version, r.code, r.message),
    ));
}

/// Decoding the wire bytes of a sendable message, whatever follows them,
/// gives back that message and takes exactly its bytes.
pub proof fn lemma_round_trip(m: MessageView, rest: Seq<u8>)
    requires
        sendable(m),
    ensures
        spec_decode(wire(m) + rest) == Ok::<(MessageView, int), MessageParseError>(
            (m, wire(m).len() as int),
        ),
{
    match m {
        MessageView::Request(r) => lemma_request_round_trip(r, rest),
        MessageView::Response(r) => lemma_response_round_trip(r, rest),
    }
}

/// The wire bytes of the requests `rs`, one after another.
pub open spec fn wire_all(rs: Seq<RequestView>) -> Seq<u8>
    decreases rs.len(),
{
    if rs.len() == 0 {
        Seq::empty()
    } else {
        wire_request(rs[0]) + wire_all(rs.drop_first())
    }
}

/// On a stream that sends sendable requests and then closes, the loop serves
/// each request, in the order they came, and then stops without an error.
pub proof fn lemma_serves_in_order(rs: Seq<RequestView>)
    requires
        forall|i: int| 0 <= i < rs.len() ==> sendable(MessageView::Request(#[trigger] rs[i])),
    ensures
        trace(wire_all(rs)) == rs.map_values(|r: RequestView| LoopStepView::Serve(r)) + seq![
            LoopStepView::ClosedGracefully,
        ],
    decreases rs.len(),
{
    let s = wire_all(rs);
    if rs.len() == 0 {
        assert(find_byte(s, 10u8, 0) == 0);
        assert(rs.map_values(|r: RequestView| LoopStepView::Serve(r)) =~= Seq::<
            LoopStepView,
        >::empty());
        assert(trace(s) =~= seq![LoopStepView::ClosedGracefully]);
    } else {
        let rest = rs.drop_first();
        let w = wire_request(rs[0]);
        assert(sendable(MessageView::Request(rs[0])));
        lemma_request_round_trip(rs[0], wire_all(rest));
        assert forall|i: int| 0 <= i < rest.len() implies sendable(
            MessageView::Request(#[trigger] rest[i]),
        ) by {
            assert(rest[i] == rs[i + 1]);
        }
        lemma_serves_in_order(rest);
        assert(w.len() > 0) by {
            assert(w.len() >= crlf().len());
        }
        assert(s.subrange(w.len() as int, s.len() as int) =~= wire_all(rest));
        assert(spec_next_step(s, true) == (LoopStepView::Serve(rs[0]), w.len() as int));
        assert(trace(s) == seq![LoopStepView::Serve(rs[0])] + trace(wire_all(rest)));
        assert(rs.map_values(|r: RequestView| LoopStepView::Serve(r)) =~= seq![
            LoopStepView::Serve(rs[0]),
        ] + rest.map_values(|r: RequestView| LoopStepView::Serve(r)));
        assert(trace(s) =~= rs.map_values(|r: RequestView| LoopStepView::Serve(r)) + seq![
            LoopStepView::ClosedGracefully,
        ]);
    }
}

/// A search that finds its byte finds the same one when more bytes follow.
pub proof fn lemma_find_byte_extend(s: Seq<u8>, t: Seq<u8>, b: u8, i: int)
    requires
        0 <= i <= s.len(),
        find_byte(s, b, i) < s.len(),
    ensures
        find_byte(s + t, b, i) == find_byte(s, b, i),
    decreases s.len() - i,
{
    assert((s + t)[i] == s[i]);
    if s[i] != b {
        lemma_find_byte_extend(s, t, b, i + 1);
    }
}

/// A whole line reads the same when more bytes follow.
pub proof fn lemma_read_line_extend(s: Seq<u8>, t: Seq<u8>, i: int)
    requires
        0 <= i <= s.len(),
        read_line(s, i) is Some,
    ensures
        read_line(s + t, i) == read_line(s, i),
{
    lemma_find_byte_extend(s, t, 10u8, i);
    lemma_find_byte(s, 10u8, i);
    let j = find_byte(s, 10u8, i);
    assert((s + t).subrange(i, j) =~= s.subrange(i, j));
}

/// A header block that is whole reads the same when more bytes follow, and
/// so does one that is malformed.
pub proof fn lemma_parse_headers_extend(s: Seq<u8>, t: Seq<u8>, i: int, acc: HeadersView)
    requires
        0 <= i <= s.len(),
        parse_headers(s, i, acc) != Err::<(HeadersView, int), MessageParseError>(
            MessageParseError::ConnectionClosed,
        ),
    ensures
        parse_headers(s + t, i, acc) == parse_headers(s, i, acc),
    decreases s.len() - i,
{
    lemma_read_line_extend(s, t, i);
    let (l, n) = read_line(s, i)->0;
    if l.len() != 0 {
        let c = find_sep(l, 0);
        let k = l.subrange(0, c);
        let v = l.subrange(c + 2, l.len() as int);
        if !(c >= l.len() || !valid_utf8(k) || !valid_utf8(v)) && i < n <= s.len() {
            lemma_parse_headers_extend(s, t, n, header_insert(acc, decode_utf8(k), decode_utf8(v)));
        }
    }
}

/// A header block that reads ends past where it starts, within the bytes.
pub proof fn lemma_parse_headers_bounds(s: Seq<u8>, i: int, acc: HeadersView)
    requires
        0 <= i <= s.len(),
    ensures
        parse_headers(s, i, acc) matches Ok((_, m)) ==> i < m <= s.len(),
    decreases s.len() - i,
{
    lemma_find_byte(s, 10u8, i);
    if let Some((l, n)) = read_line(s, i) {
        if l.len() != 0 {
            let c = find_sep(l, 0);
            let k = l.subrange(0, c);
            let v = l.subrange(c + 2, l.len() as int);
            if !(c >= l.len() || !valid_utf8(k) || !valid_utf8(v)) && i < n <= s.len() {
                lemma_parse_headers_bounds(s, n, header_insert(acc, decode_utf8(k), decode_utf8(v)));
            }
        }
    }
}

/// Once the decoder has a message, or an error that no later byte can mend,
/// the bytes that arrive after do not change what it says: only an
/// unfinished message (`ConnectionClosed`, `BodyRead`) waits on more input.
pub proof fn lemma_decode_prefix_stable(s: Seq<u8>, t: Seq<u8>)
    requires
        spec_decode(s) != Err::<(MessageView, int), MessageParseError>(
            MessageParseError::ConnectionClosed,
        ),
        spec_decode(s) != Err::<(MessageView, int), MessageParseError>(
            MessageParseError::BodyRead,
        ),
    ensures
        spec_decode(s + t) == spec_decode(s),
{
    lemma_read_line_extend(s, t, 0);
    let (line, n) = read_line(s, 0)->0;
    if parse_start_line(line) is Ok {
        lemma_find_byte(s, 10u8, 0);
        lemma_parse_headers_extend(s, t, n, Seq::empty());
        lemma_parse_headers_bounds(s, n, Seq::empty());
        match parse_headers(s, n, Seq::empty()) {
            Ok((hs, m)) => {
                if let Ok(len) = body_length(hs) {
                    assert(m + len <= s.len());
                    assert((s + t).subrange(m, m + len) =~= s.subrange(m, m + len));
                }
            },
            Err(_) => {},
        }
    }
}

} // verus!
