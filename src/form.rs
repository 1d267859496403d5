//! Form data: fields as decoded from and encoded into URL-encoded and
//! multipart bodies.
use vstd::prelude::*;
use vstd::utf8::{decode_utf8, valid_utf8};
use crate::media::copy_range;
use vstd::slice::slice_subrange;
use crate::outside::{
    disposition_params, disposition_view, header_block_of, parse_disposition, parse_header_block,
    raw_headers_view, utf8_text,
};
use crate::wire::same_name;

verus! {

/// One field of a form. A name that occurs once is a `Value`; one that
/// occurs several times is an `Array`. A `File` holds its name,
/// file name, declared media type and content.
#[derive(Debug)]
pub enum HttpFormDataField {
    Value(String, String),
    Array(String, Vec<String>),
    File(String, String, String, Vec<u8>),
}

pub ghost enum FieldView {
    Value(Seq<char>, Seq<char>),
    Array(Seq<char>, Seq<Seq<char>>),
    File(Seq<char>, Seq<char>, Seq<char>, Seq<u8>),
}

pub open spec fn texts_view(v: Seq<String>) -> Seq<Seq<char>> {
    v.map_values(|s: String| s@)
}

impl View for HttpFormDataField {
    type V = FieldView;

    open spec fn view(&self) -> FieldView {
        match self {
            HttpFormDataField::Value(n, v) => FieldView::Value(n@, v@),
            HttpFormDataField::Array(n, vs) => FieldView::Array(n@, texts_view(vs@)),
            HttpFormDataField::File(n, f, t, d) => FieldView::File(n@, f@, t@, d@),
        }
    }
}

pub open spec fn fields_view(v: Seq<HttpFormDataField>) -> Seq<FieldView> {
    v.map_values(|f: HttpFormDataField| f@)
}

/// One decoded part of a form, before parts of one name are grouped.
pub ghost enum PartView {
    Text(Seq<char>, Seq<char>),
    File(Seq<char>, Seq<char>, Seq<char>, Seq<u8>),
}

/// The first text field (a value or an array) from `i` on named `n`.
pub open spec fn text_field_pos(fields: Seq<FieldView>, n: Seq<char>, i: nat) -> Option<nat>
    decreases fields.len() - i,
{
    if i >= fields.len() {
        None
    } else if (fields[i as int] matches FieldView::Value(m, _) && m == n) || (fields[
        i as int
    ] matches FieldView::Array(m, _) && m == n) {
        Some(i)
    } else {
        text_field_pos(fields, n, i + 1)
    }
}

/// Adds one part to grouped fields: a text part joins the text field of its
/// name, wherever that stands, which becomes an array; without one it is a
/// value of its own. A file is a field of its own.
pub open spec fn add_part(fields: Seq<FieldView>, p: PartView) -> Seq<FieldView> {
    match p {
        PartView::Text(n, v) => match text_field_pos(fields, n, 0) {
            Some(j) => match fields[j as int] {
                FieldView::Value(_, w) => fields.update(j as int, FieldView::Array(n, seq![w, v])),
                FieldView::Array(_, ws) => fields.update(j as int, FieldView::Array(n, ws.push(v))),
                _ => fields,
            },
            None => fields.push(FieldView::Value(n, v)),
        },
        PartView::File(n, f, t, d) => fields.push(FieldView::File(n, f, t, d)),
    }
}

/// The fields that parts make, grouped in order.
pub open spec fn group(parts: Seq<PartView>) -> Seq<FieldView>
    decreases parts.len(),
{
    if parts.len() == 0 {
        seq![]
    } else {
        add_part(group(parts.drop_last()), parts.last())
    }
}

/// Adds a part to the fields, as `add_part` says.
fn push_part(fields: &mut Vec<HttpFormDataField>, part: HttpFormDataField)
    requires
        !(part is Array),
    ensures
        fields_view(final(fields)@) == add_part(
            fields_view(old(fields)@),
            match part@ {
                FieldView::Value(n, v) => PartView::Text(n, v),
                FieldView::File(n, f, t, d) => PartView::File(n, f, t, d),
                _ => PartView::Text(seq![], seq![]),
            },
        ),
{
    let ghost before = fields_view(fields@);
    let ghost whole = part@;
    match part {
        HttpFormDataField::Value(name, value) => {
            assert(whole == FieldView::Value(name@, value@));
            let mut j: usize = 0;
            while j < fields.len()
                invariant
                    j <= fields@.len(),
                    before == fields_view(fields@),
                    before == fields_view(old(fields)@),
                    whole == FieldView::Value(name@, value@),
                    whole == part@,
                    text_field_pos(before, name@, 0) == text_field_pos(before, name@, j as nat),
                decreases fields.len() - j,
            {
                let same = match &fields[j] {
                    HttpFormDataField::Value(m, _) => *m == name,
                    HttpFormDataField::Array(m, _) => *m == name,
                    HttpFormDataField::File(..) => false,
                };
                if same {
                    let old_field = fields.remove(j);
                    let ghost lv = old_field@;
                    assert(before[j as int] == lv);
                    assert(text_field_pos(before, name@, j as nat) == Some(j as nat));
                    let joined = match old_field {
                        HttpFormDataField::Value(_, w) => {
                            let mut vs: Vec<String> = Vec::new();
                            vs.push(w);
                            vs.push(value);
                            proof {
                                assert(texts_view(vs@) =~= seq![lv->Value_1, value@]);
                            }
                            HttpFormDataField::Array(name, vs)
                        },
                        HttpFormDataField::Array(_, ws) => {
                            let mut ws = ws;
                            let ghost old_ws = ws@;
                            ws.push(value);
                            proof {
                                assert(texts_view(ws@) =~= texts_view(old_ws).push(value@));
                            }
                            HttpFormDataField::Array(name, ws)
                        },
                        HttpFormDataField::File(n, f, t, d) => HttpFormDataField::File(n, f, t, d),
                    };
                    assert(joined@ == match lv {
                        FieldView::Value(_, w) => FieldView::Array(name@, seq![w, value@]),
                        FieldView::Array(_, ws) => FieldView::Array(name@, ws.push(value@)),
                        _ => lv,
                    });
                    fields.insert(j, joined);
                    proof {
                        assert(fields_view(fields@) =~= before.update(j as int, joined@));
                        if lv is File {
                            assert(before.update(j as int, joined@) =~= before);
                        }
                        assert(add_part(before, PartView::Text(name@, value@)) == before.update(j as int, joined@));
                        assert(fields_view(fields@) == add_part(before, PartView::Text(name@, value@)));
                    }
                    return;
                }
                j = j + 1;
            }
            let ghost mid = fields@;
            let f = HttpFormDataField::Value(name, value);
            fields.push(f);
            proof {
                assert(fields_view(fields@) =~= fields_view(mid).push(f@));
            }
        },
        HttpFormDataField::File(n, f, t, d) => {
            let ghost mid = fields@;
            let field = HttpFormDataField::File(n, f, t, d);
            fields.push(field);
            proof {
                assert(fields_view(fields@) =~= fields_view(mid).push(field@));
            }
        },
        HttpFormDataField::Array(n, vs) => {},
    }
}

/// The parts that fields stand for, in order: one per value of an array.
pub open spec fn field_parts(fs: Seq<FieldView>) -> Seq<PartView>
    decreases fs.len(),
{
    if fs.len() == 0 {
        seq![]
    } else {
        field_parts(fs.drop_last()) + match fs.last() {
            FieldView::Value(n, v) => seq![PartView::Text(n, v)],
            FieldView::Array(n, vs) => vs.map_values(|v: Seq<char>| PartView::Text(n, v)),
            FieldView::File(n, f, t, d) => seq![PartView::File(n, f, t, d)],
        }
    }
}

/// Fields grouped the way decoding groups them: one field per name.
pub open spec fn normal_form(fs: Seq<FieldView>) -> Seq<FieldView> {
    group(field_parts(fs))
}

/// The fields grouped the way decoding groups them: every name of text
/// values once, an array where it has several.
pub fn normalize_fields(fields: &Vec<HttpFormDataField>) -> (r: Vec<HttpFormDataField>)
    ensures
        fields_view(r@) == normal_form(fields_view(fields@)),
{
    let ghost fv = fields_view(fields@);
    let mut out: Vec<HttpFormDataField> = Vec::new();
    let ghost mut ps: Seq<PartView> = seq![];
    let mut i: usize = 0;
    assert(fv.take(0) =~= seq![]);
    assert(fields_view(out@) =~= group(ps));
    while i < fields.len()
        invariant
            i <= fields@.len(),
            fv == fields_view(fields@),
            ps == field_parts(fv.take(i as int)),
            fields_view(out@) == group(ps),
        decreases fields.len() - i,
    {
        assert(fv.take(i + 1).drop_last() =~= fv.take(i as int));
        assert(fv.take(i + 1).last() == fields@[i as int]@);
        match &fields[i] {
            HttpFormDataField::Value(n, v) => {
                let part = HttpFormDataField::Value(n.clone(), v.clone());
                proof {
                    assert(ps.push(PartView::Text(n@, v@)).drop_last() =~= ps);
                    ps = ps.push(PartView::Text(n@, v@));
                }
                push_part(&mut out, part);
                assert(ps =~= field_parts(fv.take(i + 1)));
            },
            HttpFormDataField::Array(n, vs) => {
                let ghost base = ps;
                let ghost tv = texts_view(vs@);
                let mut j: usize = 0;
                assert(tv.take(0).map_values(|v: Seq<char>| PartView::Text(n@, v)) =~= seq![]);
                assert(base =~= base + tv.take(0).map_values(|v: Seq<char>| PartView::Text(n@, v)));
                while j < vs.len()
                    invariant
                        j <= vs@.len(),
                        tv == texts_view(vs@),
                        ps == base + tv.take(j as int).map_values(|v: Seq<char>| PartView::Text(n@, v)),
                        fields_view(out@) == group(ps),
                    decreases vs.len() - j,
                {
                    let part = HttpFormDataField::Value(n.clone(), vs[j].clone());
                    proof {
                        assert(ps.push(PartView::Text(n@, vs@[j as int]@)).drop_last() =~= ps);
                        ps = ps.push(PartView::Text(n@, vs@[j as int]@));
                        assert(tv.take(j + 1).map_values(|v: Seq<char>| PartView::Text(n@, v))
                            =~= tv.take(j as int).map_values(|v: Seq<char>| PartView::Text(n@, v)).push(
                            PartView::Text(n@, vs@[j as int]@),
                        ));
                        assert(ps =~= base + tv.take(j + 1).map_values(|v: Seq<char>| PartView::Text(n@, v)));
                    }
                    push_part(&mut out, part);
                    j = j + 1;
                }
                assert(tv.take(j as int) =~= tv);
                assert(ps =~= field_parts(fv.take(i + 1)));
            },
            HttpFormDataField::File(n, f, t, d) => {
                let part = HttpFormDataField::File(n.clone(), f.clone(), t.clone(), crate::mock::copy_bytes(d));
                proof {
                    assert(ps.push(PartView::File(n@, f@, t@, d@)).drop_last() =~= ps);
                    ps = ps.push(PartView::File(n@, f@, t@, d@));
                }
                push_part(&mut out, part);
                assert(ps =~= field_parts(fv.take(i + 1)));
            },
        }
        i = i + 1;
    }
    assert(fv.take(i as int) =~= fv);
    out
}

/// Why a body could not be decoded.
#[derive(Clone, Copy, Debug, PartialEq, Eq, Structural)]
pub enum CodecError {
    /// Text that is not valid UTF-8.
    InvalidUtf8,
    /// Text that is not JSON, with the line and column where it fails.
    InvalidJson { line: usize, column: usize },
    /// JSON text with a number of more digits in a row than the parser takes.
    NumberTooLong,
    /// A multipart part whose header block cannot be read.
    MalformedHeader,
    /// A multipart part without a Content-Disposition header.
    MissingDisposition,
}

pub open spec fn text_parts(pairs: Seq<(Seq<char>, Seq<char>)>) -> Seq<PartView> {
    pairs.map_values(|p: (Seq<char>, Seq<char>)| PartView::Text(p.0, p.1))
}

/// The fields of a URL-encoded body.
pub fn decode_urlencoded(data: &[u8]) -> (r: Vec<HttpFormDataField>)
    ensures
        fields_view(r@) == group(text_parts(crate::outside::form_pairs(data@))),
{
    let pairs = crate::outside::parse_form_pairs(data);
    let ghost pv = crate::outside::pairs_view(pairs@);
    let mut fields: Vec<HttpFormDataField> = Vec::new();
    let mut i: usize = 0;
    assert(fields_view(fields@) =~= group(text_parts(pv.take(0))));
    while i < pairs.len()
        invariant
            i <= pv.len(),
            pv == crate::outside::pairs_view(pairs@),
            fields_view(fields@) == group(text_parts(pv.take(i as int))),
        decreases pairs.len() - i,
    {
        let name = pairs[i].0.clone();
        let value = pairs[i].1.clone();
        proof {
            assert(pv[i as int] == (name@, value@));
            assert(text_parts(pv.take(i + 1)).drop_last() =~= text_parts(pv.take(i as int)));
            assert(text_parts(pv.take(i + 1)).last() == PartView::Text(name@, value@));
        }
        push_part(&mut fields, HttpFormDataField::Value(name, value));
        i = i + 1;
    }
    assert(pv.take(i as int) =~= pv);
    fields
}

/// The first position from `i` on where `d` stands in `data`.
pub open spec fn find_bytes(data: Seq<u8>, d: Seq<u8>, i: nat) -> Option<nat>
    decreases data.len() + 1 - i,
{
    if i + d.len() > data.len() {
        None
    } else if data.subrange(i as int, (i + d.len()) as int) == d {
        Some(i)
    } else {
        find_bytes(data, d, i + 1)
    }
}

/// The ranges of the parts from the part that starts at `start`, scanning
/// for delimiters from `i` on. Each part ends two bytes, a line break,
/// before the next delimiter and starts two bytes after the end of the one
/// before; what follows the last delimiter is no part.
pub open spec fn ranges_from(data: Seq<u8>, d: Seq<u8>, start: int, i: nat) -> Seq<(int, int)>
    decreases data.len() + 1 - i,
{
    if i + d.len() > data.len() {
        seq![]
    } else if data.subrange(i as int, (i + d.len()) as int) == d {
        seq![(start, i - 2)] + ranges_from(data, d, (i + d.len() + 2) as int, i + 1)
    } else {
        ranges_from(data, d, start, i + 1)
    }
}

/// The ranges of the parts of a multipart body with delimiter `d`.
pub open spec fn part_ranges(data: Seq<u8>, d: Seq<u8>) -> Seq<(int, int)> {
    match find_bytes(data, d, 0) {
        Some(p) => ranges_from(data, d, (p + d.len() + 2) as int, p + 1),
        None => seq![],
    }
}

fn bytes_at(data: &[u8], k: usize, d: &[u8]) -> (r: bool)
    requires
        k + d@.len() <= data@.len(),
    ensures
        r == (data@.subrange(k as int, k + d@.len()) == d@),
{
    let n = data.len();
    let mut j: usize = 0;
    while j < d.len()
        invariant
            n == data@.len(),
            k + d@.len() <= data@.len(),
            j <= d@.len(),
            forall|t: int| 0 <= t < j ==> data@[k + t] == #[trigger] d@[t],
        decreases d.len() - j,
    {
        assert(k + j < data@.len());
        let idx: usize = k + j;
        if data[idx] != d[j] {
            assert(data@.subrange(k as int, k + d@.len())[j as int] != d@[j as int]);
            return false;
        }
        j = j + 1;
    }
    assert(data@.subrange(k as int, k + d@.len()) =~= d@);
    true
}

proof fn lemma_find_bytes_bound(data: Seq<u8>, d: Seq<u8>, i: nat)
    ensures
        find_bytes(data, d, i) matches Some(k) ==> i <= k && k + d.len() <= data.len(),
    decreases data.len() + 1 - i,
{
    if i + d.len() <= data.len() {
        lemma_find_bytes_bound(data, d, i + 1);
    }
}

fn find_delimiter(data: &[u8], d: &[u8], from: usize) -> (r: Option<usize>)
    requires
        d@.len() > 0,
    ensures
        match r {
            Some(k) => find_bytes(data@, d@, from as nat) == Some(k as nat),
            None => find_bytes(data@, d@, from as nat) is None,
        },
{
    let mut k = from;
    while k <= data.len() && data.len() - k >= d.len()
        invariant
            from <= k,
            d@.len() > 0,
            find_bytes(data@, d@, from as nat) == find_bytes(data@, d@, k as nat),
        decreases data.len() + 1 - k,
    {
        if bytes_at(data, k, d) {
            return Some(k);
        }
        k = k + 1;
    }
    None
}

/// The ranges of the parts of a multipart body with delimiter `d`.
fn split_parts(data: &[u8], d: &[u8]) -> (r: Vec<(usize, usize, bool)>)
    requires
        d@.len() > 0,
    ensures
        r@.len() == part_ranges(data@, d@).len(),
        forall|j: int|
            0 <= j < r@.len() ==> {
                let (s, e) = part_ranges(data@, d@)[j];
                if #[trigger] r@[j].2 {
                    s == r@[j].0 && e == r@[j].1
                } else {
                    !(0 <= s <= e <= data@.len())
                }
            },
{
    let mut out: Vec<(usize, usize, bool)> = Vec::new();
    let first = find_delimiter(data, d, 0);
    match first {
        None => {
            return out;
        },
        Some(p) => {
            proof {
                lemma_find_bytes_bound(data@, d@, 0);
            }
            let ghost all = part_ranges(data@, d@);
            // the start of the current part, or past the end of the data
            let mut start_ok: bool = data.len() - p - d.len() >= 2;
            let mut start: usize = if start_ok {
                p + d.len() + 2
            } else {
                0
            };
            let ghost start_i: int = p + d@.len() + 2;
            let mut i: usize = p + 1;
            while i <= data.len() && data.len() - i >= d.len()
                invariant
                    p < i,
                    d@.len() > 0,
                    p + d@.len() <= data@.len(),
                    start_i >= 0,
                    start_ok ==> start == start_i,
                    !start_ok ==> start_i > data@.len(),
                    out@.len() + ranges_from(data@, d@, start_i, i as nat).len() == all.len(),
                    forall|j: int|
                        0 <= j < out@.len() ==> {
                            let (s, e) = all[j];
                            if #[trigger] out@[j].2 {
                                s == out@[j].0 && e == out@[j].1
                            } else {
                                !(0 <= s <= e <= data@.len())
                            }
                        },
                    forall|j: int|
                        0 <= j < ranges_from(data@, d@, start_i, i as nat).len() ==> all[out@.len()
                            + j] == #[trigger] ranges_from(data@, d@, start_i, i as nat)[j],
                decreases data.len() + 1 - i,
            {
                if bytes_at(data, i, d) {
                    let ghost rest = ranges_from(data@, d@, i + d@.len() + 2, (i + 1) as nat);
                    proof {
                        assert(ranges_from(data@, d@, start_i, i as nat) == seq![
                            (start_i, i - 2),
                        ] + rest);
                        assert(ranges_from(data@, d@, start_i, i as nat)[0] == (start_i, i - 2));
                        assert(all[out@.len() as int] == (start_i, i - 2));
                    }
                    let ok = start_ok && i >= 2 && start <= i - 2;
                    let entry = if ok {
                        (start, i - 2, true)
                    } else {
                        (0, 0, false)
                    };
                    out.push(entry);
                    proof {
                        assert forall|j: int|
                            0 <= j < rest.len() implies all[out@.len() + j] == #[trigger] rest[j] by {
                            assert(ranges_from(data@, d@, start_i, i as nat)[j + 1] == rest[j]);
                        }
                    }
                    start_ok = data.len() - i - d.len() >= 2;
                    start = if start_ok {
                        i + d.len() + 2
                    } else {
                        0
                    };
                    proof {
                        start_i = i + d@.len() + 2;
                    }
                }
                i = i + 1;
            }
            out
        },
    }
}


/// The first header from `i` on named `name`.
pub open spec fn raw_position(hs: Seq<(Seq<char>, Seq<u8>)>, name: Seq<char>, i: nat) -> Option<nat>
    decreases hs.len() - i,
{
    if i >= hs.len() {
        None
    } else if same_name(hs[i as int].0, name) {
        Some(i)
    } else {
        raw_position(hs, name, i + 1)
    }
}

fn find_raw_header(hs: &Vec<(String, Vec<u8>)>, name: &str) -> (r: Option<usize>)
    ensures
        match r {
            Some(i) => raw_position(raw_headers_view(hs@), name@, 0) == Some(i as nat) && i
                < hs@.len(),
            None => raw_position(raw_headers_view(hs@), name@, 0) is None,
        },
{
    let ghost v = raw_headers_view(hs@);
    let mut i: usize = 0;
    while i < hs.len()
        invariant
            i <= hs@.len(),
            v == raw_headers_view(hs@),
            raw_position(v, name@, 0) == raw_position(v, name@, i as nat),
        decreases hs.len() - i,
    {
        assert(v[i as int].0 == hs@[i as int].0@);
        if crate::wire::names_match(hs[i].0.as_str(), name) {
            return Some(i);
        }
        i = i + 1;
    }
    None
}

/// The value of the first disposition parameter from `i` on that is a file
/// name, where `file`, else one named `key`.
pub open spec fn first_param(ps: Seq<(bool, Seq<char>, Seq<u8>)>, file: bool, key: Seq<char>, i: nat) -> Option<
    Seq<u8>,
>
    decreases ps.len() - i,
{
    if i >= ps.len() {
        None
    } else if ps[i as int].0 == file && (file || ps[i as int].1 == key) {
        Some(ps[i as int].2)
    } else {
        first_param(ps, file, key, i + 1)
    }
}

fn find_param(ps: &Vec<(bool, String, Vec<u8>)>, file: bool, key: &str) -> (r: Option<Vec<u8>>)
    ensures
        match r {
            Some(v) => first_param(disposition_view(ps@), file, key@, 0) == Some(v@),
            None => first_param(disposition_view(ps@), file, key@, 0) is None,
        },
{
    let ghost pv = disposition_view(ps@);
    let k = String::from_str(key);
    let mut i: usize = 0;
    while i < ps.len()
        invariant
            i <= ps@.len(),
            pv == disposition_view(ps@),
            k@ == key@,
            first_param(pv, file, key@, 0) == first_param(pv, file, key@, i as nat),
        decreases ps.len() - i,
    {
        assert(pv[i as int] == (ps@[i as int].0, ps@[i as int].1@, ps@[i as int].2@));
        if ps[i].0 == file && (file || ps[i].1 == k) {
            return Some(crate::mock::copy_bytes(&ps[i].2));
        }
        i = i + 1;
    }
    None
}

/// The part that a field's view stands for.
pub open spec fn part_of(f: FieldView) -> PartView {
    match f {
        FieldView::Value(n, v) => PartView::Text(n, v),
        FieldView::File(n, f, t, d) => PartView::File(n, f, t, d),
        FieldView::Array(n, _) => PartView::Text(n, seq![]),
    }
}

/// One part of a multipart body: its header block, which must name the
/// field in a Content-Disposition header, and its content. A part with a
/// file name is a file, of the media type its Content-Type header gives;
/// any other is text.
pub open spec fn decode_part(part: Seq<u8>) -> Result<PartView, CodecError> {
    match header_block_of(part) {
        None => Err(CodecError::MalformedHeader),
        Some((hs, n)) => if n > part.len() {
            Err(CodecError::MalformedHeader)
        } else {
            match raw_position(hs, "Content-Disposition"@, 0) {
                None => Err(CodecError::MissingDisposition),
                Some(i) => if !valid_utf8(hs[i as int].1) {
                    Err(CodecError::InvalidUtf8)
                } else {
                    match disposition_params(decode_utf8(hs[i as int].1)) {
                    None => Err(CodecError::MalformedHeader),
                    Some(ps) => {
                    let name = match first_param(ps, false, "name"@, 0) {
                        Some(x) => x,
                        None => seq![],
                    };
                    let body = part.subrange(n as int, part.len() as int);
                    if !valid_utf8(name) {
                        Err(CodecError::InvalidUtf8)
                    } else {
                        match first_param(ps, true, "filename"@, 0) {
                            Some(f) => if !valid_utf8(f) {
                                Err(CodecError::InvalidUtf8)
                            } else {
                                match raw_position(hs, "Content-Type"@, 0) {
                                    Some(j) => if valid_utf8(hs[j as int].1) {
                                        Ok(
                                            PartView::File(
                                                decode_utf8(name),
                                                decode_utf8(f),
                                                decode_utf8(hs[j as int].1),
                                                body,
                                            ),
                                        )
                                    } else {
                                        Err(CodecError::InvalidUtf8)
                                    },
                                    None => Ok(
                                        PartView::File(
                                            decode_utf8(name),
                                            decode_utf8(f),
                                            "application/octet-stream"@,
                                            body,
                                        ),
                                    ),
                                }
                            },
                            None => if valid_utf8(body) {
                                Ok(PartView::Text(decode_utf8(name), decode_utf8(body)))
                            } else {
                                Err(CodecError::InvalidUtf8)
                            },
                        }
                    }
                    },
                    }
                },
            }
        },
    }
}

fn decode_one_part(part: &[u8]) -> (r: Result<HttpFormDataField, CodecError>)
    ensures
        match r {
            Ok(f) => !(f is Array) && decode_part(part@) == Ok::<PartView, CodecError>(part_of(f@)),
            Err(e) => decode_part(part@) == Err::<PartView, CodecError>(e),
        },
{
    let block = parse_header_block(part);
    match block {
        None => Err(CodecError::MalformedHeader),
        Some((hs, n)) => {
            let ghost hv = raw_headers_view(hs@);
            match find_raw_header(&hs, "Content-Disposition") {
                None => Err(CodecError::MissingDisposition),
                Some(i) => {
                    let disp = hs[i].1.as_slice();
                    assert(hv[i as int].1 == disp@);
                    let disp_text = match utf8_text(disp) {
                        Some(t) => t,
                        None => {
                            return Err(CodecError::InvalidUtf8);
                        },
                    };
                    let ps = match parse_disposition(disp_text.as_str()) {
                        Some(ps) => ps,
                        None => {
                            return Err(CodecError::MalformedHeader);
                        },
                    };
                    let name_bytes = match find_param(&ps, false, "name") {
                        Some(x) => x,
                        None => Vec::new(),
                    };
                    let body = copy_range(part, n, part.len());
                    let name = match utf8_text(name_bytes.as_slice()) {
                        Some(x) => x,
                        None => {
                            return Err(CodecError::InvalidUtf8);
                        },
                    };
                    match find_param(&ps, true, "filename") {
                        Some(f) => {
                            let filename = match utf8_text(f.as_slice()) {
                                Some(x) => x,
                                None => {
                                    return Err(CodecError::InvalidUtf8);
                                },
                            };
                            let media = match find_raw_header(&hs, "Content-Type") {
                                Some(j) => {
                                    assert(hv[j as int].1 == hs@[j as int].1@);
                                    match utf8_text(hs[j].1.as_slice()) {
                                        Some(t) => t,
                                        None => {
                                            return Err(CodecError::InvalidUtf8);
                                        },
                                    }
                                },
                                None => String::from_str("application/octet-stream"),
                            };
                            Ok(HttpFormDataField::File(name, filename, media, body))
                        },
                        None => {
                            match utf8_text(body.as_slice()) {
                                Some(text) => Ok(HttpFormDataField::Value(name, text)),
                                None => Err(CodecError::InvalidUtf8),
                            }
                        },
                    }
                },
            }
        },
    }
}

/// The parts of the ranges `rs` of `data`, or the first error.
pub open spec fn decode_parts(data: Seq<u8>, rs: Seq<(int, int)>) -> Result<Seq<PartView>, CodecError>
    decreases rs.len(),
{
    if rs.len() == 0 {
        Ok(seq![])
    } else {
        match decode_parts(data, rs.drop_last()) {
            Err(e) => Err(e),
            Ok(ps) => {
                let (s, e) = rs.last();
                if 0 <= s <= e <= data.len() {
                    match decode_part(data.subrange(s, e)) {
                        Ok(p) => Ok(ps.push(p)),
                        Err(x) => Err(x),
                    }
                } else {
                    Err(CodecError::MalformedHeader)
                }
            },
        }
    }
}

/// The fields of a multipart body with the given boundary.
pub open spec fn multipart_fields(data: Seq<u8>, boundary: Seq<u8>) -> Result<
    Seq<FieldView>,
    CodecError,
> {
    match decode_parts(data, part_ranges(data, seq![45u8, 45u8] + boundary)) {
        Ok(ps) => Ok(group(ps)),
        Err(e) => Err(e),
    }
}

proof fn lemma_decode_parts_error(data: Seq<u8>, rs: Seq<(int, int)>, i: nat)
    requires
        i <= rs.len(),
        decode_parts(data, rs.take(i as int)) is Err,
    ensures
        decode_parts(data, rs) == decode_parts(data, rs.take(i as int)),
    decreases rs.len() - i,
{
    if i == rs.len() {
        assert(rs.take(i as int) =~= rs);
    } else {
        assert(rs.take((i + 1) as int).drop_last() =~= rs.take(i as int));
        lemma_decode_parts_error(data, rs, i + 1);
    }
}

/// The fields of a multipart body with the given boundary.
pub fn decode_multipart(data: &[u8], boundary: &[u8]) -> (r: Result<Vec<HttpFormDataField>, CodecError>)
    ensures
        match r {
            Ok(fs) => multipart_fields(data@, boundary@) == Ok::<Seq<FieldView>, CodecError>(
                fields_view(fs@),
            ),
            Err(e) => multipart_fields(data@, boundary@) == Err::<Seq<FieldView>, CodecError>(e),
        },
{
    let mut d: Vec<u8> = Vec::new();
    d.push(45);
    d.push(45);
    let mut k: usize = 0;
    while k < boundary.len()
        invariant
            k <= boundary@.len(),
            d@ == seq![45u8, 45u8] + boundary@.take(k as int),
        decreases boundary.len() - k,
    {
        d.push(boundary[k]);
        assert(boundary@.take(k + 1) =~= boundary@.take(k as int).push(boundary@[k as int]));
        k = k + 1;
    }
    assert(boundary@.take(k as int) =~= boundary@);
    assert(d@ =~= seq![45u8, 45u8] + boundary@);
    let ranges = split_parts(data, d.as_slice());
    let ghost rs = part_ranges(data@, d@);
    let mut fields: Vec<HttpFormDataField> = Vec::new();
    let ghost mut ps: Seq<PartView> = seq![];
    let mut i: usize = 0;
    assert(rs.take(0) =~= seq![]);
    assert(fields_view(fields@) =~= group(ps));
    while i < ranges.len()
        invariant
            i <= ranges@.len(),
            ranges@.len() == rs.len(),
            rs == part_ranges(data@, seq![45u8, 45u8] + boundary@),
            forall|j: int|
                0 <= j < ranges@.len() ==> {
                    let (s, e) = rs[j];
                    if #[trigger] ranges@[j].2 {
                        s == ranges@[j].0 && e == ranges@[j].1
                    } else {
                        !(0 <= s <= e <= data@.len())
                    }
                },
            decode_parts(data@, rs.take(i as int)) == Ok::<Seq<PartView>, CodecError>(ps),
            fields_view(fields@) == group(ps),
        decreases ranges.len() - i,
    {
        assert(rs.take(i + 1).drop_last() =~= rs.take(i as int));
        assert(rs.take(i + 1).last() == rs[i as int]);
        let (s, e, valid) = ranges[i];
        assert(ranges@[i as int].2 == valid);
        if !valid || e > data.len() || s > e {
            proof {
                lemma_decode_parts_error(data@, rs, (i + 1) as nat);
            }
            return Err(CodecError::MalformedHeader);
        }
        let part = slice_subrange(data, s, e);
        match decode_one_part(part) {
            Ok(f) => {
                proof {
                    assert(ps.push(part_of(f@)).drop_last() =~= ps);
                    ps = ps.push(part_of(f@));
                }
                push_part(&mut fields, f);
            },
            Err(x) => {
                proof {
                    lemma_decode_parts_error(data@, rs, (i + 1) as nat);
                }
                return Err(x);
            },
        }
        i = i + 1;
    }
    assert(rs.take(i as int) =~= rs);
    Ok(fields)
}

} // verus!
