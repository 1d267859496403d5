//! The calls into outside crates, each behind a contract, and the names
//! given to results that those crates compute.
use vstd::prelude::*;
use vstd::utf8::{decode_utf8, encode_utf8, is_ascii_chars, valid_utf8};
use crate::tree::{Json, JsonNumber, JsonObject};

verus! {

#[verifier::external_type_specification]
#[verifier::external_body]
pub struct ExJsonValue(json::JsonValue);

/// Where a JSON text stops being valid: line and column of the offending
/// character, both zero where the text ended early or nested too deep.
#[derive(Clone, Copy, Debug, PartialEq, Eq, Structural)]
pub struct JsonSyntaxError {
    pub line: usize,
    pub column: usize,
}

/// What the `json` crate's parser makes of a text.
pub uninterp spec fn json_parse(text: Seq<char>) -> Result<Json, JsonSyntaxError>;

/// What the `json` crate's serializer writes for a tree.
pub uninterp spec fn json_text(tree: Json) -> Seq<char>;

/// The name and value pairs that `form_urlencoded::parse` decodes from bytes.
pub uninterp spec fn form_pairs(data: Seq<u8>) -> Seq<(Seq<char>, Seq<char>)>;

/// The text that `form_urlencoded::Serializer` writes for name and value pairs.
pub uninterp spec fn form_text(pairs: Seq<(Seq<char>, Seq<char>)>) -> Seq<char>;

/// What hyper's media type parser (`mime::Mime::from_str`) reads from a
/// Content-Type: top level, sub level, and parameters as name and value.
pub uninterp spec fn media_parts(ct: Seq<char>) -> Option<(Seq<char>, Seq<char>, Seq<(Seq<char>, Seq<char>)>)>;

/// What hyper's `ContentDisposition` parser reads from a header value: its
/// parameters, a file name as `(true, "", bytes)` and any other as
/// `(false, name, value bytes)`.
pub uninterp spec fn disposition_params(v: Seq<char>) -> Option<Seq<(bool, Seq<char>, Seq<u8>)>>;

/// What `httparse::parse_headers` reads from the start of a buffer: the
/// headers and the length of the header block, when it is complete and valid.
pub uninterp spec fn header_block_of(data: Seq<u8>) -> Option<(Seq<(Seq<char>, Seq<u8>)>, nat)>;

/// What `httparse::Request::parse` reads from the start of a buffer: method,
/// path, headers and the length of the head, when it is complete and valid.
pub uninterp spec fn request_head_of(data: Seq<u8>) -> Option<
    (Seq<char>, Seq<char>, Seq<(Seq<char>, Seq<u8>)>, nat),
>;

pub open spec fn pairs_view(v: Seq<(String, String)>) -> Seq<(Seq<char>, Seq<char>)> {
    v.map_values(|p: (String, String)| (p.0@, p.1@))
}

pub open spec fn disposition_view(v: Seq<(bool, String, Vec<u8>)>) -> Seq<(bool, Seq<char>, Seq<u8>)> {
    v.map_values(|p: (bool, String, Vec<u8>)| (p.0, p.1@, p.2@))
}

pub open spec fn raw_headers_view(v: Seq<(String, Vec<u8>)>) -> Seq<(Seq<char>, Seq<u8>)> {
    v.map_values(|p: (String, Vec<u8>)| (p.0@, p.1@))
}

/// Relies on `String::from_utf8`: the bytes as text exactly when they are
/// valid UTF-8.
#[verifier::external_body]
pub(crate) fn utf8_text(data: &[u8]) -> (r: Option<String>)
    ensures
        r is Some <==> valid_utf8(data@),
        r matches Some(s) ==> s@ == decode_utf8(data@),
{
    String::from_utf8(data.to_vec()).ok()
}

/// Converts a value of the `json` crate into a tree, member by member, in
/// the crate's order.
#[verifier::external_body]
fn tree_from_value(v: json::JsonValue) -> Json {
    match v {
        json::JsonValue::Null => Json::Null,
        json::JsonValue::Boolean(b) => Json::Boolean(b),
        json::JsonValue::Number(n) => Json::Number(JsonNumber::from_parts(n.as_parts())),
        json::JsonValue::Short(s) => Json::String(s.as_str().to_string()),
        json::JsonValue::String(s) => Json::String(s),
        json::JsonValue::Array(items) => Json::Array(items.into_iter().map(tree_from_value).collect()),
        json::JsonValue::Object(o) => Json::Object(JsonObject {
            entries: o.iter().map(|(k, v)| (k.to_string(), tree_from_value(v.clone()))).collect(),
        }),
    }
}

/// Converts a tree into a value of the `json` crate, member by member.
#[verifier::external_body]
fn value_from_tree(t: &Json) -> json::JsonValue {
    match t {
        Json::Null => json::JsonValue::Null,
        Json::Boolean(b) => json::JsonValue::Boolean(*b),
        Json::Number(n) => json::JsonValue::Number(
            json::number::Number::from_parts(n.positive, n.mantissa, n.exponent),
        ),
        Json::String(s) => json::JsonValue::String(s.clone()),
        Json::Array(items) => json::JsonValue::Array(items.iter().map(value_from_tree).collect()),
        Json::Object(o) => {
            let mut obj = json::object::Object::new();
            o.entries.iter().for_each(|(k, v)| obj.insert(k, value_from_tree(v)));
            json::JsonValue::Object(obj)
        },
    }
}

/// The longest run of ASCII digits a text handed to the JSON parser may
/// hold. The parser counts the digits after a decimal point down in an
/// `i16` exponent, which overflows past about 32767 of them.
pub const JSON_MAX_DIGIT_RUN: usize = 32000;

pub open spec fn is_digit(b: u8) -> bool {
    48 <= b <= 57
}

/// The length of the run of ASCII digits that ends just before position `i`.
pub open spec fn digit_run_before(b: Seq<u8>, i: nat) -> nat
    decreases i,
{
    if i == 0 || i > b.len() {
        0
    } else if is_digit(b[i - 1]) {
        digit_run_before(b, (i - 1) as nat) + 1
    } else {
        0
    }
}

/// No run of ASCII digits among the first `n` bytes is longer than
/// `JSON_MAX_DIGIT_RUN`.
pub open spec fn digit_runs_within(b: Seq<u8>, n: nat) -> bool
    decreases n,
{
    n == 0 || (digit_run_before(b, n) <= JSON_MAX_DIGIT_RUN && digit_runs_within(b, (n - 1) as nat))
}

/// No run of ASCII digits in the bytes is longer than `JSON_MAX_DIGIT_RUN`.
pub open spec fn short_digit_runs(b: Seq<u8>) -> bool {
    digit_runs_within(b, b.len())
}

/// Whether no run of ASCII digits in `b` is longer than `JSON_MAX_DIGIT_RUN`.
pub fn has_short_digit_runs(b: &[u8]) -> (r: bool)
    ensures
        r == short_digit_runs(b@),
{
    let n = b.len();
    let mut i: usize = 0;
    let mut run: usize = 0;
    while i < n
        invariant
            n == b@.len(),
            i <= n,
            run == digit_run_before(b@, i as nat),
            run <= JSON_MAX_DIGIT_RUN,
            digit_runs_within(b@, i as nat),
        decreases n - i,
    {
        if 48 <= b[i] && b[i] <= 57 {
            run = run + 1;
        } else {
            run = 0;
        }
        if run > JSON_MAX_DIGIT_RUN {
            proof {
                lemma_runs_within_stops(b@, (i + 1) as nat, n as nat);
            }
            return false;
        }
        i = i + 1;
    }
    true
}

proof fn lemma_runs_within_stops(b: Seq<u8>, k: nat, n: nat)
    requires
        k <= n,
        !digit_runs_within(b, k),
    ensures
        !digit_runs_within(b, n),
    decreases n - k,
{
    if k < n {
        lemma_runs_within_stops(b, k, (n - 1) as nat);
    }
}

/// Relies on `json::parse`: the tree a text denotes, or where it is not JSON.
#[verifier::external_body]
pub(crate) fn parse_json(text: &str) -> (r: Result<Json, JsonSyntaxError>)
    requires
        short_digit_runs(encode_utf8(text@)),
    ensures
        r == json_parse(text@),
{
    match json::parse(text) {
        Ok(v) => Ok(tree_from_value(v)),
        Err(json::Error::UnexpectedCharacter { line, column, .. }) => Err(
            JsonSyntaxError { line, column },
        ),
        Err(_) => Err(JsonSyntaxError { line: 0, column: 0 }),
    }
}

/// Relies on `json::stringify`: the compact JSON text of a tree.
#[verifier::external_body]
pub(crate) fn stringify_json(tree: &Json) -> (r: String)
    ensures
        r@ == json_text(*tree),
{
    json::stringify(value_from_tree(tree))
}

/// Relies on `url::form_urlencoded::parse`: the decoded name and value pairs.
#[verifier::external_body]
pub(crate) fn parse_form_pairs(data: &[u8]) -> (r: Vec<(String, String)>)
    ensures
        pairs_view(r@) == form_pairs(data@),
{
    url::form_urlencoded::parse(data).map(|(k, v)| (k.into_owned(), v.into_owned())).collect()
}

/// Relies on `url::form_urlencoded::Serializer`: the pairs, percent-encoded
/// and joined by `&`.
#[verifier::external_body]
pub(crate) fn serialize_form_pairs(pairs: &Vec<(String, String)>) -> (r: String)
    ensures
        r@ == form_text(pairs_view(pairs@)),
{
    url::form_urlencoded::Serializer::new(String::new()).extend_pairs(
        pairs.iter().map(|p| (p.0.as_str(), p.1.as_str())),
    ).finish()
}

/// Relies on `httparse::parse_headers`: the headers at the start of `data`
/// and the length of their block, up to sixteen headers.
#[verifier::external_body]
pub(crate) fn parse_header_block(data: &[u8]) -> (r: Option<(Vec<(String, Vec<u8>)>, usize)>)
    ensures
        match r {
            Some(h) => header_block_of(data@) == Some((raw_headers_view(h.0@), h.1 as nat)) && h.1
                <= data@.len(),
            None => header_block_of(data@) is None,
        },
{
    let mut headers = [httparse::EMPTY_HEADER; 16];
    match httparse::parse_headers(data, &mut headers) {
        Ok(httparse::Status::Complete((n, hs))) => Some(
            (hs.iter().map(|h| (h.name.to_string(), h.value.to_vec())).collect(), n),
        ),
        _ => None,
    }
}

/// Relies on `httparse::Request::parse`: method, path and headers of the
/// request at the start of `data` and the length of its head, up to
/// sixteen headers.
#[verifier::external_body]
pub(crate) fn parse_request_head(data: &[u8]) -> (r: Option<(String, String, Vec<(String, Vec<u8>)>, usize)>)
    ensures
        match r {
            Some(h) => request_head_of(data@) == Some(
                (h.0@, h.1@, raw_headers_view(h.2@), h.3 as nat),
            ) && h.3 <= data@.len(),
            None => request_head_of(data@) is None,
        },
{
    let mut headers = [httparse::EMPTY_HEADER; 16];
    let mut req = httparse::Request::new(&mut headers);
    match req.parse(data) {
        Ok(httparse::Status::Complete(n)) => Some((req.method?.to_string(), req.path?.to_string(),
            req.headers.iter().map(|h| (h.name.to_string(), h.value.to_vec())).collect(), n)),
        _ => None,
    }
}

/// Relies on `hyper::mime::Mime`'s `FromStr`: the parts of a media type.
/// The parser indexes bytes by character count, so only ASCII is handed
/// to it.
#[verifier::external_body]
pub(crate) fn parse_media_type(ct: &str) -> (r: Option<(String, String, Vec<(String, String)>)>)
    requires
        is_ascii_chars(ct@),
    ensures
        match r {
            Some(p) => media_parts(ct@) == Some((p.0@, p.1@, pairs_view(p.2@))),
            None => media_parts(ct@) is None,
        },
{
    ct.parse::<hyper::mime::Mime>().ok().map(|hyper::mime::Mime(top, sub, ps)| (
        top.as_str().to_string(),
        sub.as_str().to_string(),
        ps.iter().map(|(a, v)| (a.as_str().to_string(), v.as_str().to_string())).collect(),
    ))
}

/// Relies on `hyper::header::ContentDisposition::parse_header`: the
/// parameters of a Content-Disposition value, in order.
#[verifier::external_body]
pub(crate) fn parse_disposition(v: &str) -> (r: Option<Vec<(bool, String, Vec<u8>)>>)
    ensures
        match r {
            Some(ps) => disposition_params(v@) == Some(disposition_view(ps@)),
            None => disposition_params(v@) is None,
        },
{
    let cd = <hyper::header::ContentDisposition as hyper::header::Header>::parse_header(
        &[v.as_bytes().to_vec()],
    ).ok()?;
    Some(cd.parameters.into_iter().map(|p| match p {
        hyper::header::DispositionParam::Ext(k, val) => (false, k, val.into_bytes()),
        hyper::header::DispositionParam::Filename(_, _, bytes) => (true, String::new(), bytes),
    }).collect())
}

/// Relies on `rand::random`: a number drawn at random.
#[verifier::external_body]
pub(crate) fn random_u64() -> (r: u64) {
    rand::random::<u64>()
}

} // verus!
