//! HTTP/1.1 wire formats: the bytes of a synthesized response, and header
//! names, which compare without regard to ASCII case.
use vstd::prelude::*;
use vstd::utf8::encode_utf8;

verus! {

/// The decimal digits of `n`, as ASCII bytes.
pub open spec fn decimal(n: nat) -> Seq<u8>
    decreases n,
{
    if n < 10 {
        seq![(48 + n) as u8]
    } else {
        decimal(n / 10).push((48 + n % 10) as u8)
    }
}

/// Appends the decimal digits of `n`.
pub fn push_decimal(out: &mut Vec<u8>, n: u64)
    ensures
        final(out)@ == old(out)@ + decimal(n as nat),
    decreases n,
{
    if n >= 10 {
        push_decimal(out, n / 10);
    }
    out.push((48 + n % 10) as u8);
    assert(final(out)@ =~= old(out)@ + decimal(n as nat));
}

/// Appends the UTF-8 bytes of `s`.
pub fn push_str(out: &mut Vec<u8>, s: &str)
    ensures
        final(out)@ == old(out)@ + encode_utf8(s@),
{
    let b = s.as_bytes();
    let mut i: usize = 0;
    let ghost start = out@;
    while i < b.len()
        invariant
            i <= b@.len(),
            b@ == encode_utf8(s@),
            out@ == start + b@.take(i as int),
        decreases b.len() - i,
    {
        out.push(b[i]);
        assert(b@.take(i + 1) =~= b@.take(i as int).push(b@[i as int]));
        i = i + 1;
    }
    assert(b@.take(b@.len() as int) =~= b@);
}

/// ASCII upper case letters to lower case; other bytes unchanged.
pub open spec fn lower_byte(b: u8) -> u8 {
    if 65 <= b <= 90 {
        (b + 32) as u8
    } else {
        b
    }
}

/// Two header names are the same name: equal up to ASCII case.
pub open spec fn same_name(a: Seq<char>, b: Seq<char>) -> bool {
    let x = encode_utf8(a);
    let y = encode_utf8(b);
    x.len() == y.len() && forall|i: int| 0 <= i < x.len() ==> lower_byte(#[trigger] x[i]) == lower_byte(y[i])
}

/// Whether `a` and `b` name the same header.
pub fn names_match(a: &str, b: &str) -> (r: bool)
    ensures
        r == same_name(a@, b@),
{
    let x = a.as_bytes();
    let y = b.as_bytes();
    if x.len() != y.len() {
        return false;
    }
    let mut i: usize = 0;
    while i < x.len()
        invariant
            x@ == encode_utf8(a@),
            y@ == encode_utf8(b@),
            x@.len() == y@.len(),
            i <= x@.len(),
            forall|j: int| 0 <= j < i ==> lower_byte(#[trigger] x@[j]) == lower_byte(y@[j]),
        decreases x.len() - i,
    {
        let p = if 65 <= x[i] && x[i] <= 90 { x[i] + 32 } else { x[i] };
        let q = if 65 <= y[i] && y[i] <= 90 { y[i] + 32 } else { y[i] };
        if p != q {
            return false;
        }
        i = i + 1;
    }
    true
}

/// The position of the first header named `name`, if any.
pub open spec fn header_position(headers: Seq<(String, String)>, name: Seq<char>, i: nat) -> Option<
    nat,
>
    decreases headers.len() - i,
{
    if i >= headers.len() {
        None
    } else if same_name(headers[i as int].0@, name) {
        Some(i)
    } else {
        header_position(headers, name, i + 1)
    }
}

/// The position of the first header named `name`, if any.
pub fn find_header(headers: &Vec<(String, String)>, name: &str) -> (r: Option<usize>)
    ensures
        match r {
            Some(i) => header_position(headers@, name@, 0) == Some(i as nat) && i < headers@.len(),
            None => header_position(headers@, name@, 0) is None,
        },
{
    let mut i: usize = 0;
    while i < headers.len()
        invariant
            i <= headers@.len(),
            header_position(headers@, name@, 0) == header_position(headers@, name@, i as nat),
        decreases headers.len() - i,
    {
        if names_match(headers[i].0.as_str(), name) {
            return Some(i);
        }
        i = i + 1;
    }
    None
}

/// Headers as pairs of character sequences.
pub open spec fn headers_view(headers: Seq<(String, String)>) -> Seq<(Seq<char>, Seq<char>)> {
    headers.map_values(|h: (String, String)| (h.0@, h.1@))
}

/// One header line: name, colon, space, value, CRLF.
pub open spec fn header_line(h: (Seq<char>, Seq<char>)) -> Seq<u8> {
    encode_utf8(h.0) + encode_utf8(": "@) + encode_utf8(h.1) + encode_utf8("\r\n"@)
}

/// The header lines, in order.
pub open spec fn header_block(headers: Seq<(Seq<char>, Seq<char>)>) -> Seq<u8>
    decreases headers.len(),
{
    if headers.len() == 0 {
        seq![]
    } else {
        header_block(headers.drop_last()) + header_line(headers.last())
    }
}

/// A complete response: status line, the headers, the body's length, an
/// empty line and the body.
pub open spec fn response_bytes(status: u16, headers: Seq<(Seq<char>, Seq<char>)>, body: Seq<u8>) -> Seq<
    u8,
> {
    encode_utf8("HTTP/1.1 "@) + decimal(status as nat) + encode_utf8(" \r\n"@) + header_block(
        headers,
    ) + encode_utf8("Content-Length: "@) + decimal(body.len()) + encode_utf8("\r\n\r\n"@) + body
}

/// The bytes of a response with the given status, headers and body.
pub fn encode_response(status: u16, headers: &Vec<(String, String)>, body: &Vec<u8>) -> (r: Vec<u8>)
    ensures
        r@ == response_bytes(status, headers_view(headers@), body@),
{
    let mut out: Vec<u8> = Vec::new();
    push_str(&mut out, "HTTP/1.1 ");
    push_decimal(&mut out, status as u64);
    push_str(&mut out, " \r\n");
    let ghost head = out@;
    let mut i: usize = 0;
    while i < headers.len()
        invariant
            i <= headers@.len(),
            out@ == head + header_block(headers_view(headers@.take(i as int))),
        decreases headers.len() - i,
    {
        push_str(&mut out, headers[i].0.as_str());
        push_str(&mut out, ": ");
        push_str(&mut out, headers[i].1.as_str());
        push_str(&mut out, "\r\n");
        proof {
            let t = headers_view(headers@.take(i + 1));
            assert(t.drop_last() =~= headers_view(headers@.take(i as int)));
            assert(t.last() == (headers@[i as int].0@, headers@[i as int].1@));
            assert(out@ =~= head + header_block(t));
        }
        i = i + 1;
    }
    assert(headers@.take(headers@.len() as int) =~= headers@);
    push_str(&mut out, "Content-Length: ");
    push_decimal(&mut out, body.len() as u64);
    push_str(&mut out, "\r\n\r\n");
    let mut i: usize = 0;
    let ghost tail = out@;
    while i < body.len()
        invariant
            i <= body@.len(),
            out@ == tail + body@.take(i as int),
        decreases body.len() - i,
    {
        out.push(body[i]);
        assert(body@.take(i + 1) =~= body@.take(i as int).push(body@[i as int]));
        i = i + 1;
    }
    assert(body@.take(body@.len() as int) =~= body@);
    assert(out@ =~= response_bytes(status, headers_view(headers@), body@));
    out
}

} // verus!
