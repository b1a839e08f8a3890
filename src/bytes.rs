use vstd::prelude::*;
use vstd::utf8::*;

verus! {

/// Whether two byte slices hold the same bytes.
pub fn bytes_eq(a: &[u8], b: &[u8]) -> (r: bool)
    ensures
        r == (a@ == b@),
{
    if a.len() != b.len() {
        return false;
    }
    let mut i: usize = 0;
    while i < a.len()
        invariant
            a@.len() == b@.len(),
            i <= a@.len(),
            a@.subrange(0, i as int) == b@.subrange(0, i as int),
        decreases a@.len() - i,
    {
        if a[i] != b[i] {
            assert(a@[i as int] != b@[i as int]);
            return false;
        }
        assert(a@.subrange(0, i + 1) == a@.subrange(0, i as int).push(a@[i as int]));
        assert(b@.subrange(0, i + 1) == b@.subrange(0, i as int).push(b@[i as int]));
        i = i + 1;
    }
    assert(a@ == a@.subrange(0, i as int));
    assert(b@ == b@.subrange(0, i as int));
    true
}

/// Appends the bytes of `b` to `out`.
pub fn push_bytes(out: &mut Vec<u8>, b: &[u8])
    ensures
        final(out)@ == old(out)@ + b@,
{
    let mut i: usize = 0;
    while i < b.len()
        invariant
            i <= b@.len(),
            out@ == old(out)@ + b@.subrange(0, i as int),
        decreases b@.len() - i,
    {
        out.push(b[i]);
        assert(b@.subrange(0, i + 1) == b@.subrange(0, i as int).push(b@[i as int]));
        i = i + 1;
    }
    assert(b@ == b@.subrange(0, i as int));
}


/// Whether `b` is an ASCII decimal digit.
pub open spec fn is_digit(b: u8) -> bool {
    48 <= b <= 57
}

/// The number that a run of decimal digits writes, most significant first.
pub open spec fn digits_value(d: Seq<u8>) -> nat
    decreases d.len(),
{
    if d.len() == 0 {
        0
    } else {
        digits_value(d.drop_last()) * 10 + (d.last() - 48) as nat
    }
}

/// The digits of `b` once an optional leading `+` is taken off.
pub open spec fn unsigned_digits(b: Seq<u8>) -> Seq<u8> {
    if b.len() > 0 && b[0] == 43u8 {
        b.drop_first()
    } else {
        b
    }
}

/// The non-negative integer that `b` writes: an optional `+`, then one or more
/// decimal digits, nothing else.
pub open spec fn parse_decimal(b: Seq<u8>) -> Option<nat> {
    let d = unsigned_digits(b);
    if d.len() > 0 && forall|i: int| 0 <= i < d.len() ==> is_digit(#[trigger] d[i]) {
        Some(digits_value(d))
    } else {
        None
    }
}

/// `parse_decimal` for a result type whose largest value is `max`.
pub open spec fn parse_bounded(b: Seq<u8>, max: nat) -> Option<nat> {
    match parse_decimal(b) {
        Some(n) => if n <= max {
            Some(n)
        } else {
            None
        },
        None => None,
    }
}

/// The shortest decimal writing of `n`.
pub open spec fn decimal(n: nat) -> Seq<u8>
    decreases n,
{
    if n < 10 {
        seq![(48 + n) as u8]
    } else {
        decimal(n / 10).push((48 + n % 10) as u8)
    }
}

/// A prefix of a run of digits writes no larger number than the whole run.
pub proof fn lemma_digits_prefix_le(d: Seq<u8>, k: int)
    requires
        0 <= k <= d.len(),
        forall|i: int| 0 <= i < d.len() ==> is_digit(#[trigger] d[i]),
    ensures
        digits_value(d.subrange(0, k)) <= digits_value(d),
    decreases d.len(),
{
    if k < d.len() {
        let p = d.drop_last();
        assert(p.subrange(0, k) == d.subrange(0, k));
        assert forall|i: int| 0 <= i < p.len() implies is_digit(#[trigger] p[i]) by {
            assert(p[i] == d[i]);
        }
        lemma_digits_prefix_le(p, k);
    } else {
        assert(d.subrange(0, k) == d);
    }
}

/// Parses the decimal integer that `b` writes, if it is at most `max`.
pub fn parse_bounded_u64(b: &[u8], max: u64) -> (r: Option<u64>)
    ensures
        r matches Some(n) ==> parse_bounded(b@, max as nat) == Some(n as nat),
        r is None ==> parse_bounded(b@, max as nat) is None,
{
    let start: usize = if b.len() > 0 && b[0] == 43u8 {
        1
    } else {
        0
    };
    let ghost d = unsigned_digits(b@);
    assert(d == b@.subrange(start as int, b@.len() as int));
    if start >= b.len() {
        return None;
    }
    let mut acc: u64 = 0;
    let mut i: usize = start;
    while i < b.len()
        invariant
            start <= i <= b@.len(),
            d == b@.subrange(start as int, b@.len() as int),
            d == unsigned_digits(b@),
            forall|j: int| 0 <= j < i - start ==> is_digit(#[trigger] d[j]),
            acc as nat == digits_value(d.subrange(0, i - start)),
            acc <= max,
        decreases b@.len() - i,
    {
        let c = b[i];
        if c < 48u8 || c > 57u8 {
            assert(d[i - start] == b@[i as int]);
            assert(!is_digit(d[i - start]));
            return None;
        }
        let next: u128 = acc as u128 * 10 + (c - 48u8) as u128;
        let ghost p = d.subrange(0, i - start + 1);
        assert(p.drop_last() == d.subrange(0, i - start));
        assert(p.last() == c);
        assert(next as nat == digits_value(p));
        if next > max as u128 {
            proof {
                if forall|j: int| 0 <= j < d.len() ==> is_digit(#[trigger] d[j]) {
                    lemma_digits_prefix_le(d, i - start + 1);
                }
            }
            return None;
        }
        acc = next as u64;
        i = i + 1;
    }
    assert(d.subrange(0, i - start) == d);
    Some(acc)
}

/// Appends the decimal writing of `n` to `out`.
pub fn push_decimal(out: &mut Vec<u8>, n: u64)
    ensures
        final(out)@ == old(out)@ + decimal(n as nat),
    decreases n,
{
    if n >= 10 {
        push_decimal(out, n / 10);
    }
    out.push(48u8 + (n % 10) as u8);
    proof {
        if n >= 10 {
            assert(old(out)@ + decimal(n as nat) == (old(out)@ + decimal((n / 10) as nat)).push(
                (48 + n % 10) as u8,
            ));
        } else {
            assert(old(out)@ + decimal(n as nat) == old(out)@.push((48 + n % 10) as u8));
        }
    }
}


/// The first position at or after `i` that holds `b`, or `s.len()` if none does.
pub open spec fn find_byte(s: Seq<u8>, b: u8, i: int) -> int
    decreases s.len() - i,
{
    if i >= s.len() {
        s.len() as int
    } else if s[i] == b {
        i
    } else {
        find_byte(s, b, i + 1)
    }
}

/// The first position at or after `i` where `": "` starts, or `s.len()` if none does.
pub open spec fn find_sep(s: Seq<u8>, i: int) -> int
    decreases s.len() - i,
{
    if i + 1 >= s.len() {
        s.len() as int
    } else if s[i] == 58u8 && s[i + 1] == 32u8 {
        i
    } else {
        find_sep(s, i + 1)
    }
}

/// What a search from `i` finds: nothing before the position, the byte at it.
pub proof fn lemma_find_byte(s: Seq<u8>, b: u8, i: int)
    requires
        0 <= i <= s.len(),
    ensures
        i <= find_byte(s, b, i) <= s.len(),
        find_byte(s, b, i) < s.len() ==> s[find_byte(s, b, i)] == b,
        forall|k: int| i <= k < find_byte(s, b, i) ==> s[k] != b,
    decreases s.len() - i,
{
    if i < s.len() && s[i] != b {
        lemma_find_byte(s, b, i + 1);
    }
}

/// What a search for `": "` from `i` finds: either nothing, or a separator
/// that fits in `s`.
pub proof fn lemma_find_sep(s: Seq<u8>, i: int)
    requires
        0 <= i,
    ensures
        find_sep(s, i) == s.len() || (i <= find_sep(s, i) && find_sep(s, i) + 2 <= s.len()
            && s[find_sep(s, i)] == 58u8 && s[find_sep(s, i) + 1] == 32u8),
    decreases s.len() - i,
{
    if i + 1 < s.len() && !(s[i] == 58u8 && s[i + 1] == 32u8) {
        lemma_find_sep(s, i + 1);
    }
}

/// A search from `i` stops at the first `b`.
pub proof fn lemma_find_byte_at(s: Seq<u8>, b: u8, i: int, j: int)
    requires
        0 <= i <= j <= s.len(),
        j < s.len() ==> s[j] == b,
        forall|k: int| i <= k < j ==> s[k] != b,
    ensures
        find_byte(s, b, i) == j,
    decreases j - i,
{
    if i < j {
        lemma_find_byte_at(s, b, i + 1, j);
    }
}

/// A search for `": "` from `i` stops at the first one.
pub proof fn lemma_find_sep_at(s: Seq<u8>, i: int, j: int)
    requires
        0 <= i <= j,
        j + 2 <= s.len(),
        s[j] == 58u8 && s[j + 1] == 32u8,
        forall|k: int| i <= k < j ==> !(#[trigger] s[k] == 58u8 && s[k + 1] == 32u8),
    ensures
        find_sep(s, i) == j,
    decreases j - i,
{
    if i < j {
        lemma_find_sep_at(s, i + 1, j);
    }
}

/// The first position at or after `from` that holds `b`, or `s.len()`.
pub fn find_byte_exec(s: &[u8], b: u8, from: usize) -> (r: usize)
    requires
        from <= s@.len(),
    ensures
        r == find_byte(s@, b, from as int),
{
    let mut i: usize = from;
    while i < s.len()
        invariant
            from <= i <= s@.len(),
            find_byte(s@, b, i as int) == find_byte(s@, b, from as int),
        decreases s@.len() - i,
    {
        if s[i] == b {
            return i;
        }
        i = i + 1;
    }
    i
}

/// The first position where `": "` starts in `s`, or `s.len()`.
pub fn find_sep_exec(s: &[u8]) -> (r: usize)
    ensures
        r == find_sep(s@, 0),
{
    let mut i: usize = 0;
    while s.len() - i > 1
        invariant
            i <= s@.len(),
            find_sep(s@, i as int) == find_sep(s@, 0),
        decreases s@.len() - i,
    {
        if s[i] == 58u8 && s[i + 1] == 32u8 {
            return i;
        }
        i = i + 1;
    }
    s.len()
}

/// Relies on `String::from_utf8`: it accepts exactly the well-formed UTF-8
/// byte sequences, and the text it returns is encoded by those bytes.
#[verifier::external_body]
pub(crate) fn text_of(b: &[u8]) -> (r: Option<String>)
    ensures
        r is Some <==> valid_utf8(b@),
        r matches Some(t) ==> encode_utf8(t@) == b@,
{
    String::from_utf8(b.to_vec()).ok()
}


/// ASCII text is encoded one byte per character.
pub proof fn lemma_encode_ascii(c: Seq<char>, b: Seq<u8>)
    requires
        c.len() == b.len(),
        is_ascii_chars(c),
        forall|i: int| 0 <= i < c.len() ==> c[i] as u8 == b[i],
    ensures
        encode_utf8(c) == b,
{
    is_ascii_chars_encode_utf8(c);
    assert(encode_utf8(c) =~= b);
}

/// The characters of the decimal writing of `n`.
pub open spec fn decimal_text(n: nat) -> Seq<char> {
    decimal(n).map_values(|b: u8| b as char)
}

/// The decimal writing of a number is made of digits.
pub proof fn lemma_decimal_digits(n: nat)
    ensures
        decimal(n).len() > 0,
        forall|i: int| 0 <= i < decimal(n).len() ==> is_digit(#[trigger] decimal(n)[i]),
    decreases n,
{
    if n >= 10 {
        lemma_decimal_digits(n / 10);
    }
}

/// The decimal writing of `n`, as text.
pub fn decimal_string(n: u64) -> (r: String)
    ensures
        r@ == decimal_text(n as nat),
{
    let mut b: Vec<u8> = Vec::new();
    push_decimal(&mut b, n);
    proof {
        let d = decimal(n as nat);
        assert(b@ == d);
        lemma_decimal_digits(n as nat);
        let c = decimal_text(n as nat);
        assert(is_ascii_chars(c));
        lemma_encode_ascii(c, d);
        encode_utf8_valid_utf8(c);
        encode_utf8_decode_utf8(c);
    }
    match text_of(b.as_slice()) {
        Some(t) => {
            proof {
                encode_utf8_decode_utf8(t@);
            }
            t
        },
        None => String::new(),
    }
}

} // verus!
