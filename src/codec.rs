//! The body codec: a body's bytes and declared media type read as text,
//! a JSON tree, form fields or raw bytes, and typed bodies written back.
use vstd::prelude::*;
use vstd::string::StringExecFns;
use vstd::utf8::{decode_utf8, encode_utf8, valid_utf8};
use crate::form::{
    decode_multipart, decode_urlencoded, fields_view, group, multipart_fields, normal_form,
    normalize_fields, text_parts,
    texts_view, CodecError, FieldView, HttpFormDataField,
};
use crate::media::{body_kind, boundary, boundary_of, classify, BodyKind};
use crate::mock::HttpBody;
use crate::outside::{
    form_pairs, form_text, json_parse, json_text, pairs_view, parse_json, random_u64, short_digit_runs,
    has_short_digit_runs,
    serialize_form_pairs, stringify_json, utf8_text,
};
use crate::tree::Json;
use crate::wire::push_str;

verus! {

/// A body read by its media type.
#[derive(Debug)]
pub enum TypedBody {
    Text(String),
    Json(Json),
    Form(Vec<HttpFormDataField>),
    Raw(Vec<u8>),
}

/// The fields of a form body without a boundary.
pub open spec fn urlencoded_fields(data: Seq<u8>) -> Seq<FieldView> {
    group(text_parts(form_pairs(data)))
}

/// What JSON bytes hold: they must be UTF-8, hold no number with more
/// digits in a row than the parser takes, and be JSON.
pub open spec fn json_of_bytes(data: Seq<u8>) -> Result<Json, CodecError> {
    if !valid_utf8(data) {
        Err(CodecError::InvalidUtf8)
    } else if !short_digit_runs(data) {
        Err(CodecError::NumberTooLong)
    } else {
        match json_parse(decode_utf8(data)) {
            Ok(j) => Ok(j),
            Err(e) => Err(CodecError::InvalidJson { line: e.line, column: e.column }),
        }
    }
}

/// Reads JSON bytes.
pub fn json_from_bytes(data: &[u8]) -> (r: Result<Json, CodecError>)
    ensures
        r == json_of_bytes(data@),
{
    match utf8_text(data) {
        Some(s) => {
            if !has_short_digit_runs(data) {
                return Err(CodecError::NumberTooLong);
            }
            proof {
                vstd::utf8::decode_utf8_encode_utf8(data@);
            }
            match parse_json(s.as_str()) {
                Ok(j) => Ok(j),
                Err(e) => Err(CodecError::InvalidJson { line: e.line, column: e.column }),
            }
        },
        None => Err(CodecError::InvalidUtf8),
    }
}

/// A typed body as values.
pub ghost enum BodyView {
    Text(Seq<char>),
    Json(Json),
    Form(Seq<FieldView>),
    Raw(Seq<u8>),
}

impl View for TypedBody {
    type V = BodyView;

    open spec fn view(&self) -> BodyView {
        match self {
            TypedBody::Text(s) => BodyView::Text(s@),
            TypedBody::Json(j) => BodyView::Json(*j),
            TypedBody::Form(fs) => BodyView::Form(fields_view(fs@)),
            TypedBody::Raw(v) => BodyView::Raw(v@),
        }
    }
}

/// What a body of Content-Type `ct` reads as: text that must be UTF-8, a
/// JSON tree, form fields (multipart where a boundary is given, else
/// URL-encoded), or the bytes themselves.
pub open spec fn decoded(data: Seq<u8>, ct: Seq<char>) -> Result<BodyView, CodecError> {
    match body_kind(ct) {
        BodyKind::Text => if valid_utf8(data) {
            Ok(BodyView::Text(decode_utf8(data)))
        } else {
            Err(CodecError::InvalidUtf8)
        },
        BodyKind::Json => match json_of_bytes(data) {
            Ok(j) => Ok(BodyView::Json(j)),
            Err(e) => Err(e),
        },
        BodyKind::UrlEncoded => Ok(BodyView::Form(urlencoded_fields(data))),
        BodyKind::Multipart => match boundary_of(ct) {
            Some(b) => match multipart_fields(data, b) {
                Ok(fv) => Ok(BodyView::Form(fv)),
                Err(e) => Err(e),
            },
            None => Ok(BodyView::Form(urlencoded_fields(data))),
        },
        BodyKind::Raw => Ok(BodyView::Raw(data)),
    }
}

pub open spec fn result_view(r: Result<TypedBody, CodecError>) -> Result<BodyView, CodecError> {
    match r {
        Ok(b) => Ok(b@),
        Err(e) => Err(e),
    }
}

/// Reads a body of the given Content-Type.
pub fn decode(data: &[u8], content_type: &str) -> (r: Result<TypedBody, CodecError>)
    ensures
        result_view(r) == decoded(data@, content_type@),
{
    match classify(content_type) {
        BodyKind::Text => match utf8_text(data) {
            Some(s) => Ok(TypedBody::Text(s)),
            None => Err(CodecError::InvalidUtf8),
        },
        BodyKind::Json => match json_from_bytes(data) {
            Ok(j) => Ok(TypedBody::Json(j)),
            Err(e) => Err(e),
        },
        BodyKind::UrlEncoded => Ok(TypedBody::Form(decode_urlencoded(data))),
        BodyKind::Multipart => match boundary(content_type) {
            Some(b) => match decode_multipart(data, b.as_slice()) {
                Ok(fs) => Ok(TypedBody::Form(fs)),
                Err(e) => Err(e),
            },
            None => Ok(TypedBody::Form(decode_urlencoded(data))),
        },
        BodyKind::Raw => {
            let v = crate::media::copy_range(data, 0, data.len());
            assert(data@.subrange(0, data@.len() as int) =~= data@);
            Ok(TypedBody::Raw(v))
        },
    }
}

// ---------------------------------------------------------------------------
// Encoding

/// The decimal digit `d` as text.
pub open spec fn digit_text(d: nat) -> Seq<char> {
    if d == 0 {
        "0"@
    } else if d == 1 {
        "1"@
    } else if d == 2 {
        "2"@
    } else if d == 3 {
        "3"@
    } else if d == 4 {
        "4"@
    } else if d == 5 {
        "5"@
    } else if d == 6 {
        "6"@
    } else if d == 7 {
        "7"@
    } else if d == 8 {
        "8"@
    } else {
        "9"@
    }
}

/// The decimal digits of `n` as text.
pub open spec fn digits_text(n: nat) -> Seq<char>
    decreases n,
{
    if n < 10 {
        digit_text(n)
    } else {
        digits_text(n / 10) + digit_text(n % 10)
    }
}

pub fn append_digits(s: &mut String, n: u64)
    ensures
        final(s)@ == old(s)@ + digits_text(n as nat),
    decreases n,
{
    if n >= 10 {
        append_digits(s, n / 10);
    }
    let d = n % 10;
    if d == 0 {
        s.append("0");
    } else if d == 1 {
        s.append("1");
    } else if d == 2 {
        s.append("2");
    } else if d == 3 {
        s.append("3");
    } else if d == 4 {
        s.append("4");
    } else if d == 5 {
        s.append("5");
    } else if d == 6 {
        s.append("6");
    } else if d == 7 {
        s.append("7");
    } else if d == 8 {
        s.append("8");
    } else {
        s.append("9");
    }
    assert(final(s)@ =~= old(s)@ + digits_text(n as nat));
}

/// The boundary made of two numbers: `boundary` and their digits.
pub open spec fn boundary_text(a: u64, b: u64) -> Seq<char> {
    "boundary"@ + digits_text(a as nat) + digits_text(b as nat)
}

/// The boundary made of two numbers.
pub fn make_boundary(a: u64, b: u64) -> (r: String)
    ensures
        r@ == boundary_text(a, b),
{
    let mut s = String::from_str("boundary");
    append_digits(&mut s, a);
    append_digits(&mut s, b);
    s
}

/// A text body, declared `text/plain`.
pub fn encode_text(text: &str) -> (r: HttpBody)
    ensures
        r.data@ == encode_utf8(text@),
        r.content_type@ == "text/plain"@,
{
    let mut data: Vec<u8> = Vec::new();
    push_str(&mut data, text);
    assert(data@ =~= encode_utf8(text@));
    HttpBody { data, content_type: String::from_str("text/plain") }
}

/// A JSON body, declared `application/json`.
pub fn encode_json(tree: &Json) -> (r: HttpBody)
    ensures
        r.data@ == encode_utf8(json_text(*tree)),
        r.content_type@ == "application/json"@,
{
    let text = stringify_json(tree);
    let mut data: Vec<u8> = Vec::new();
    push_str(&mut data, text.as_str());
    assert(data@ =~= encode_utf8(json_text(*tree)));
    HttpBody { data, content_type: String::from_str("application/json") }
}

/// A raw body, declared `application/octet-stream`.
pub fn encode_raw(data: Vec<u8>) -> (r: HttpBody)
    ensures
        r.data@ == data@,
        r.content_type@ == "application/octet-stream"@,
{
    HttpBody { data, content_type: String::from_str("application/octet-stream") }
}

/// Whether any field is a file.
pub open spec fn has_file(fs: Seq<FieldView>) -> bool {
    exists|i: int| 0 <= i < fs.len() && #[trigger] fs[i] is File
}

/// The name and value pairs of fields without files, in order.
pub open spec fn field_pairs(fs: Seq<FieldView>) -> Seq<(Seq<char>, Seq<char>)>
    decreases fs.len(),
{
    if fs.len() == 0 {
        seq![]
    } else {
        field_pairs(fs.drop_last()) + match fs.last() {
            FieldView::Value(n, v) => seq![(n, v)],
            FieldView::Array(n, vs) => vs.map_values(|v: Seq<char>| (n, v)),
            FieldView::File(..) => seq![],
        }
    }
}

/// The header of a text part named `name`.
pub open spec fn text_head(name: Seq<char>) -> Seq<u8> {
    encode_utf8("\r\nContent-Disposition: form-data; name=\""@) + encode_utf8(name) + encode_utf8(
        "\"\r\n\r\n"@,
    )
}

/// The header of a file part.
pub open spec fn file_head(name: Seq<char>, filename: Seq<char>, media: Seq<char>) -> Seq<u8> {
    encode_utf8("\r\nContent-Disposition: form-data; name=\""@) + encode_utf8(name) + encode_utf8(
        "\"; filename=\""@,
    ) + encode_utf8(filename) + encode_utf8("\"\r\nContent-Type: "@) + encode_utf8(media)
        + encode_utf8("\r\n\r\n"@)
}

/// The parts of array values, each after `delim`.
pub open spec fn values_bytes(name: Seq<char>, vs: Seq<Seq<char>>, delim: Seq<u8>) -> Seq<u8>
    decreases vs.len(),
{
    if vs.len() == 0 {
        seq![]
    } else {
        values_bytes(name, vs.drop_last(), delim) + delim + text_head(name) + encode_utf8(vs.last())
    }
}

/// The parts of one field, each after `delim`.
pub open spec fn field_bytes(f: FieldView, delim: Seq<u8>) -> Seq<u8> {
    match f {
        FieldView::Value(n, v) => delim + text_head(n) + encode_utf8(v),
        FieldView::Array(n, vs) => values_bytes(n, vs, delim),
        FieldView::File(n, name, t, d) => delim + file_head(n, name, t) + d,
    }
}

/// The parts of all fields, in order.
pub open spec fn fields_bytes(fs: Seq<FieldView>, delim: Seq<u8>) -> Seq<u8>
    decreases fs.len(),
{
    if fs.len() == 0 {
        seq![]
    } else {
        fields_bytes(fs.drop_last(), delim) + field_bytes(fs.last(), delim)
    }
}

/// A multipart body: every part after a line break and the delimiter, then
/// the closing delimiter.
pub open spec fn multipart_bytes(fs: Seq<FieldView>, boundary: Seq<char>) -> Seq<u8> {
    let delim = encode_utf8("\r\n--"@) + encode_utf8(boundary);
    fields_bytes(fs, delim) + delim + encode_utf8("--\r\n"@)
}

fn push_bytes(out: &mut Vec<u8>, b: &[u8])
    ensures
        final(out)@ == old(out)@ + b@,
{
    let mut i: usize = 0;
    while i < b.len()
        invariant
            i <= b@.len(),
            out@ == old(out)@ + b@.take(i as int),
        decreases b.len() - i,
    {
        out.push(b[i]);
        assert(b@.take(i + 1) =~= b@.take(i as int).push(b@[i as int]));
        i = i + 1;
    }
    assert(b@.take(b@.len() as int) =~= b@);
}

fn push_text_part(out: &mut Vec<u8>, delim: &[u8], name: &str, value: &str)
    ensures
        final(out)@ == old(out)@ + delim@ + text_head(name@) + encode_utf8(value@),
{
    push_bytes(out, delim);
    push_str(out, "\r\nContent-Disposition: form-data; name=\"");
    push_str(out, name);
    push_str(out, "\"\r\n\r\n");
    push_str(out, value);
    assert(final(out)@ =~= old(out)@ + delim@ + text_head(name@) + encode_utf8(value@));
}

fn push_file_part(out: &mut Vec<u8>, delim: &[u8], name: &str, filename: &str, media: &str, data: &[u8])
    ensures
        final(out)@ == old(out)@ + (delim@ + file_head(name@, filename@, media@) + data@),
{
    push_bytes(out, delim);
    push_str(out, "\r\nContent-Disposition: form-data; name=\"");
    push_str(out, name);
    push_str(out, "\"; filename=\"");
    push_str(out, filename);
    push_str(out, "\"\r\nContent-Type: ");
    push_str(out, media);
    push_str(out, "\r\n\r\n");
    push_bytes(out, data);
    assert(final(out)@ =~= old(out)@ + (delim@ + file_head(name@, filename@, media@) + data@));
}

/// The bytes of a multipart body with the given boundary.
#[verifier::rlimit(40)]
pub fn encode_multipart(fields: &Vec<HttpFormDataField>, boundary: &str) -> (r: Vec<u8>)
    ensures
        r@ == multipart_bytes(fields_view(fields@), boundary@),
{
    let mut delim: Vec<u8> = Vec::new();
    push_str(&mut delim, "\r\n--");
    push_str(&mut delim, boundary);
    let ghost dv = delim@;
    let ghost fv = fields_view(fields@);
    let mut out: Vec<u8> = Vec::new();
    let mut i: usize = 0;
    assert(fv.take(0) =~= seq![]);
    while i < fields.len()
        invariant
            i <= fields@.len(),
            fv == fields_view(fields@),
            dv == delim@,
            dv == encode_utf8("\r\n--"@) + encode_utf8(boundary@),
            out@ == fields_bytes(fv.take(i as int), dv),
        decreases fields.len() - i,
    {
        let ghost before = out@;
        assert(fv.take(i + 1).drop_last() =~= fv.take(i as int));
        assert(fv.take(i + 1).last() == fields@[i as int]@);
        match &fields[i] {
            HttpFormDataField::Value(n, v) => {
                push_text_part(&mut out, delim.as_slice(), n.as_str(), v.as_str());
            },
            HttpFormDataField::Array(n, vs) => {
                let mut j: usize = 0;
                let ghost tv = texts_view(vs@);
                assert(tv.take(0) =~= seq![]);
                while j < vs.len()
                    invariant
                        j <= vs@.len(),
                        tv == texts_view(vs@),
                        dv == delim@,
                        out@ == before + values_bytes(n@, tv.take(j as int), dv),
                    decreases vs.len() - j,
                {
                    assert(tv.take(j + 1).drop_last() =~= tv.take(j as int));
                    assert(tv.take(j + 1).last() == vs@[j as int]@);
                    push_text_part(&mut out, delim.as_slice(), n.as_str(), vs[j].as_str());
                    j = j + 1;
                }
                assert(tv.take(j as int) =~= tv);
            },
            HttpFormDataField::File(n, f, t, d) => {
                push_file_part(&mut out, delim.as_slice(), n.as_str(), f.as_str(), t.as_str(), d.as_slice());
            },
        }
        assert(out@ =~= fields_bytes(fv.take(i + 1), dv));
        i = i + 1;
    }
    assert(fv.take(i as int) =~= fv);
    push_bytes(&mut out, delim.as_slice());
    push_str(&mut out, "--\r\n");
    assert(out@ =~= multipart_bytes(fv, boundary@));
    out
}

/// The name and value pairs of the fields, files left out.
fn pairs_of(fields: &Vec<HttpFormDataField>) -> (r: Vec<(String, String)>)
    ensures
        pairs_view(r@) == field_pairs(fields_view(fields@)),
{
    let ghost fv = fields_view(fields@);
    let mut out: Vec<(String, String)> = Vec::new();
    let mut i: usize = 0;
    assert(fv.take(0) =~= seq![]);
    assert(pairs_view(out@) =~= seq![]);
    while i < fields.len()
        invariant
            i <= fields@.len(),
            fv == fields_view(fields@),
            pairs_view(out@) == field_pairs(fv.take(i as int)),
        decreases fields.len() - i,
    {
        let ghost before = pairs_view(out@);
        assert(fv.take(i + 1).drop_last() =~= fv.take(i as int));
        assert(fv.take(i + 1).last() == fields@[i as int]@);
        match &fields[i] {
            HttpFormDataField::Value(n, v) => {
                let ghost o = out@;
                let p = (n.clone(), v.clone());
                out.push(p);
                assert(pairs_view(out@) =~= pairs_view(o).push((p.0@, p.1@)));
            },
            HttpFormDataField::Array(n, vs) => {
                let ghost tv = texts_view(vs@);
                let mut j: usize = 0;
                assert(tv.take(0).map_values(|v: Seq<char>| (n@, v)) =~= seq![]);
                while j < vs.len()
                    invariant
                        j <= vs@.len(),
                        tv == texts_view(vs@),
                        pairs_view(out@) == before + tv.take(j as int).map_values(
                            |v: Seq<char>| (n@, v),
                        ),
                    decreases vs.len() - j,
                {
                    let ghost o = out@;
                    let p = (n.clone(), vs[j].clone());
                    out.push(p);
                    assert(pairs_view(out@) =~= pairs_view(o).push((p.0@, p.1@)));
                    assert(tv.take(j + 1).map_values(|v: Seq<char>| (n@, v)) =~= tv.take(
                        j as int,
                    ).map_values(|v: Seq<char>| (n@, v)).push((n@, vs@[j as int]@)));
                    j = j + 1;
                }
                assert(tv.take(j as int) =~= tv);
            },
            HttpFormDataField::File(..) => {},
        }
        assert(pairs_view(out@) =~= field_pairs(fv.take(i + 1)));
        i = i + 1;
    }
    assert(fv.take(i as int) =~= fv);
    out
}

fn any_file(fields: &Vec<HttpFormDataField>) -> (r: bool)
    ensures
        r == has_file(fields_view(fields@)),
{
    let mut i: usize = 0;
    while i < fields.len()
        invariant
            i <= fields@.len(),
            forall|j: int| 0 <= j < i ==> !(#[trigger] fields_view(fields@)[j] is File),
        decreases fields.len() - i,
    {
        if matches!(fields[i], HttpFormDataField::File(..)) {
            assert(fields_view(fields@)[i as int] is File);
            return true;
        }
        i = i + 1;
    }
    false
}

/// A form body, its fields grouped by name first: multipart with the
/// boundary made of `a` and `b` where a field is a file, else URL-encoded.
pub fn encode_form(fields: &Vec<HttpFormDataField>, a: u64, b: u64) -> (r: HttpBody)
    ensures
        has_file(normal_form(fields_view(fields@))) ==> {
            &&& r.data@ == multipart_bytes(normal_form(fields_view(fields@)), boundary_text(a, b))
            &&& r.content_type@ == "multipart/form-data; boundary="@ + boundary_text(a, b)
        },
        !has_file(normal_form(fields_view(fields@))) ==> {
            &&& r.data@ == encode_utf8(form_text(field_pairs(normal_form(fields_view(fields@)))))
            &&& r.content_type@ == "application/x-www-form-urlencoded"@
        },
{
    let normal = normalize_fields(fields);
    let fields = &normal;
    if any_file(fields) {
        let boundary = make_boundary(a, b);
        let data = encode_multipart(fields, boundary.as_str());
        let mut content_type = String::from_str("multipart/form-data; boundary=");
        content_type.append(boundary.as_str());
        HttpBody { data, content_type }
    } else {
        let pairs = pairs_of(fields);
        let text = serialize_form_pairs(&pairs);
        let mut data: Vec<u8> = Vec::new();
        push_str(&mut data, text.as_str());
        assert(data@ =~= encode_utf8(form_text(field_pairs(fields_view(fields@)))));
        HttpBody { data, content_type: String::from_str("application/x-www-form-urlencoded") }
    }
}

/// Form data: its fields, in order.
#[derive(Debug)]
pub struct HttpFormData {
    pub fields: Vec<HttpFormDataField>,
}

impl HttpFormData {
    /// Form data of the given fields.
    pub fn new(fields: Vec<HttpFormDataField>) -> (r: HttpFormData)
        ensures
            r.fields@ == fields@,
    {
        HttpFormData { fields }
    }

    /// Whether the form is sent as multipart: where a field is a file.
    pub fn is_multipart(&self) -> (r: bool)
        ensures
            r == has_file(fields_view(self.fields@)),
    {
        any_file(&self.fields)
    }

    /// The form as a body, multipart with the boundary made of `a` and `b`
    /// where a field is a file.
    pub fn into_body_parts(&self, a: u64, b: u64) -> (r: HttpBody)
        ensures
            has_file(normal_form(fields_view(self.fields@))) ==> {
                &&& r.data@ == multipart_bytes(normal_form(fields_view(self.fields@)), boundary_text(a, b))
                &&& r.content_type@ == "multipart/form-data; boundary="@ + boundary_text(a, b)
            },
            !has_file(normal_form(fields_view(self.fields@))) ==> {
                &&& r.data@ == encode_utf8(form_text(field_pairs(normal_form(fields_view(self.fields@)))))
                &&& r.content_type@ == "application/x-www-form-urlencoded"@
            },
    {
        encode_form(&self.fields, a, b)
    }
}

/// Reads form data: multipart where a boundary is given, else URL-encoded.
pub fn parse_form_data(body: &[u8], boundary: Option<&[u8]>) -> (r: Result<HttpFormData, CodecError>)
    ensures
        match boundary {
            Some(b) => match multipart_fields(body@, b@) {
                Ok(fv) => r matches Ok(f) && fields_view(f.fields@) == fv,
                Err(e) => r matches Err(x) && x == e,
            },
            None => r matches Ok(f) && fields_view(f.fields@) == urlencoded_fields(body@),
        },
{
    match boundary {
        Some(b) => match decode_multipart(body, b) {
            Ok(fields) => Ok(HttpFormData { fields }),
            Err(e) => Err(e),
        },
        None => Ok(HttpFormData { fields: decode_urlencoded(body) }),
    }
}

/// Writes a typed body with its media type; a multipart form gets a
/// boundary drawn at random.
pub fn encode(body: &TypedBody) -> (r: HttpBody)
    ensures
        body matches TypedBody::Text(s) ==> r.data@ == encode_utf8(s@) && r.content_type@
            == "text/plain"@,
        body matches TypedBody::Json(j) ==> r.data@ == encode_utf8(json_text(*j))
            && r.content_type@ == "application/json"@,
        body matches TypedBody::Raw(v) ==> r.data@ == v@ && r.content_type@
            == "application/octet-stream"@,
        body matches TypedBody::Form(fs) ==> (has_file(normal_form(fields_view(fs@))) ==> exists|a: u64, b: u64|
            r.data@ == multipart_bytes(normal_form(fields_view(fs@)), boundary_text(a, b)) && r.content_type@
                == "multipart/form-data; boundary="@ + boundary_text(a, b)),
        body matches TypedBody::Form(fs) ==> (!has_file(normal_form(fields_view(fs@))) ==> r.data@
            == encode_utf8(form_text(field_pairs(normal_form(fields_view(fs@))))) && r.content_type@
            == "application/x-www-form-urlencoded"@),
{
    match body {
        TypedBody::Text(s) => encode_text(s.as_str()),
        TypedBody::Json(j) => encode_json(j),
        TypedBody::Raw(v) => {
            let copy = crate::media::copy_range(v.as_slice(), 0, v.len());
            assert(v@.subrange(0, v@.len() as int) =~= v@);
            encode_raw(copy)
        },
        TypedBody::Form(fs) => {
            let a = random_u64();
            let b = random_u64();
            encode_form(fs, a, b)
        },
    }
}

} // verus!
