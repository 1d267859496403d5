//! Media types as far as the body codec reads them: which kind of body a
//! Content-Type declares, and the boundary of a multipart body.
use vstd::prelude::*;
use vstd::utf8::{encode_utf8, is_ascii_chars};
use crate::outside::{media_parts, pairs_view, parse_media_type};
use crate::wire::push_str;

verus! {

/// How a body is read, by its declared media type.
#[derive(Clone, Copy, Debug, PartialEq, Eq, Structural)]
pub enum BodyKind {
    /// `text/*`: UTF-8 text.
    Text,
    /// `application/json`.
    Json,
    /// `application/x-www-form-urlencoded`.
    UrlEncoded,
    /// `multipart/form-data`, or `application/form-data`.
    Multipart,
    /// Anything else: bytes, uninterpreted.
    Raw,
}

/// The first position from `i` on that holds `c`, or the length.
pub open spec fn position_of(b: Seq<u8>, c: u8, i: nat) -> nat
    decreases b.len() - i,
{
    if i >= b.len() {
        b.len()
    } else if b[i as int] == c {
        i
    } else {
        position_of(b, c, i + 1)
    }
}

/// The value of the first parameter named `name` from `i` on.
pub open spec fn param_named(ps: Seq<(Seq<char>, Seq<char>)>, name: Seq<char>, i: nat) -> Option<Seq<char>>
    decreases ps.len() - i,
{
    if i >= ps.len() {
        None
    } else if ps[i as int].0 == name {
        Some(ps[i as int].1)
    } else {
        param_named(ps, name, i + 1)
    }
}

/// The kind of body that Content-Type `ct` declares, as hyper's media type
/// parser reads it; a type it does not read, or one that is not ASCII, is
/// raw.
pub open spec fn body_kind(ct: Seq<char>) -> BodyKind {
    if !is_ascii_chars(ct) {
        BodyKind::Raw
    } else {
        match media_parts(ct) {
            None => BodyKind::Raw,
            Some((top, sub, _)) => if top == "text"@ {
                BodyKind::Text
            } else if top == "application"@ && sub == "json"@ {
                BodyKind::Json
            } else if top == "application"@ && sub == "x-www-form-urlencoded"@ {
                BodyKind::UrlEncoded
            } else if (top == "multipart"@ || top == "application"@) && sub == "form-data"@ {
                BodyKind::Multipart
            } else {
                BodyKind::Raw
            },
        }
    }
}

/// The `boundary` parameter of Content-Type `ct`, as bytes.
pub open spec fn boundary_of(ct: Seq<char>) -> Option<Seq<u8>> {
    if !is_ascii_chars(ct) {
        None
    } else {
        match media_parts(ct) {
            None => None,
            Some((_, _, ps)) => match param_named(ps, "boundary"@, 0) {
                Some(v) => Some(encode_utf8(v)),
                None => None,
            },
        }
    }
}

fn parts_of(content_type: &str) -> (r: Option<(String, String, Vec<(String, String)>)>)
    ensures
        match r {
            Some(p) => is_ascii_chars(content_type@) && media_parts(content_type@) == Some(
                (p.0@, p.1@, pairs_view(p.2@)),
            ),
            None => !is_ascii_chars(content_type@) || media_parts(content_type@) is None,
        },
{
    if !content_type.is_ascii() {
        return None;
    }
    parse_media_type(content_type)
}

/// The kind of body that Content-Type `content_type` declares.
pub fn classify(content_type: &str) -> (r: BodyKind)
    ensures
        r == body_kind(content_type@),
{
    match parts_of(content_type) {
        None => BodyKind::Raw,
        Some((top, sub, _)) => {
            let text = String::from_str("text");
            let application = String::from_str("application");
            let multipart = String::from_str("multipart");
            if top == text {
                BodyKind::Text
            } else if top == application && sub == String::from_str("json") {
                BodyKind::Json
            } else if top == application && sub == String::from_str("x-www-form-urlencoded") {
                BodyKind::UrlEncoded
            } else if (top == multipart || top == application) && sub == String::from_str("form-data") {
                BodyKind::Multipart
            } else {
                BodyKind::Raw
            }
        },
    }
}

pub fn position(b: &[u8], c: u8, from: usize) -> (r: usize)
    requires
        from <= b@.len(),
    ensures
        r == position_of(b@, c, from as nat),
        from <= r <= b@.len(),
{
    let mut i = from;
    while i < b.len() && b[i] != c
        invariant
            from <= i <= b@.len(),
            position_of(b@, c, from as nat) == position_of(b@, c, i as nat),
        decreases b.len() - i,
    {
        i = i + 1;
    }
    i
}

pub fn copy_range(b: &[u8], lo: usize, hi: usize) -> (r: Vec<u8>)
    requires
        lo <= hi <= b@.len(),
    ensures
        r@ == b@.subrange(lo as int, hi as int),
{
    let mut r: Vec<u8> = Vec::new();
    let mut i = lo;
    while i < hi
        invariant
            lo <= i <= hi <= b@.len(),
            r@ == b@.subrange(lo as int, i as int),
        decreases hi - i,
    {
        r.push(b[i]);
        assert(b@.subrange(lo as int, i + 1) =~= b@.subrange(lo as int, i as int).push(b@[i as int]));
        i = i + 1;
    }
    r
}

/// The `boundary` parameter of Content-Type `content_type`, if it has one.
pub fn boundary(content_type: &str) -> (r: Option<Vec<u8>>)
    ensures
        match r {
            Some(v) => boundary_of(content_type@) == Some(v@),
            None => boundary_of(content_type@) is None,
        },
{
    match parts_of(content_type) {
        None => None,
        Some((top, sub, ps)) => {
            let ghost pv = pairs_view(ps@);
            let name = String::from_str("boundary");
            let mut i: usize = 0;
            while i < ps.len()
                invariant
                    i <= ps@.len(),
                    pv == pairs_view(ps@),
                    name@ == "boundary"@,
                    is_ascii_chars(content_type@),
                    media_parts(content_type@) == Some((top@, sub@, pv)),
                    param_named(pv, name@, 0) == param_named(pv, name@, i as nat),
                decreases ps.len() - i,
            {
                assert(pv[i as int] == (ps@[i as int].0@, ps@[i as int].1@));
                if ps[i].0 == name {
                    let mut v: Vec<u8> = Vec::new();
                    push_str(&mut v, ps[i].1.as_str());
                    assert(v@ =~= encode_utf8(ps@[i as int].1@));
                    return Some(v);
                }
                i = i + 1;
            }
            None
        },
    }
}

} // verus!
