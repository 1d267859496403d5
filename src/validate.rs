//! Validation of bodies against expectations: form fields compared field
//! by field, and whole bodies compared by what their media types make of
//! them.
use vstd::prelude::*;
use vstd::utf8::{decode_utf8, valid_utf8};
use crate::codec::{decode, decoded, BodyView, TypedBody};
use crate::diff::{compare, diff, extend_path, path_view, records_view, DiffRecord, PathSegment, RecordView, SegmentView};
use crate::form::{fields_view, texts_view, CodecError, FieldView, HttpFormDataField};
use crate::outside::utf8_text;
use crate::tree::Json;

verus! {

/// The kinds of form fields.
#[derive(Clone, Copy, Debug, PartialEq, Eq, Structural)]
pub enum FieldKind {
    Field,
    Array,
    File,
}

pub open spec fn field_kind(f: FieldView) -> FieldKind {
    match f {
        FieldView::Value(..) => FieldKind::Field,
        FieldView::Array(..) => FieldKind::Array,
        FieldView::File(..) => FieldKind::File,
    }
}

pub open spec fn field_name(f: FieldView) -> Seq<char> {
    match f {
        FieldView::Value(n, _) => n,
        FieldView::Array(n, _) => n,
        FieldView::File(n, ..) => n,
    }
}

/// Why content did not match: either side could not be read, or what it
/// reads as differs.
#[derive(Debug)]
pub enum ContentFailure {
    ActualUndecodable(CodecError),
    ExpectedUndecodable(CodecError),
    TextMismatch { expected: String, actual: String },
    JsonMismatch(Vec<DiffRecord>),
    RawMismatch { expected: Vec<u8>, actual: Vec<u8> },
}

pub ghost enum ContentFailureView {
    ActualUndecodable(CodecError),
    ExpectedUndecodable(CodecError),
    TextMismatch { expected: Seq<char>, actual: Seq<char> },
    JsonMismatch(Seq<RecordView>),
    RawMismatch { expected: Seq<u8>, actual: Seq<u8> },
}

impl View for ContentFailure {
    type V = ContentFailureView;

    open spec fn view(&self) -> ContentFailureView {
        match self {
            ContentFailure::ActualUndecodable(e) => ContentFailureView::ActualUndecodable(*e),
            ContentFailure::ExpectedUndecodable(e) => ContentFailureView::ExpectedUndecodable(*e),
            ContentFailure::TextMismatch { expected, actual } => ContentFailureView::TextMismatch {
                expected: expected@,
                actual: actual@,
            },
            ContentFailure::JsonMismatch(r) => ContentFailureView::JsonMismatch(records_view(r@)),
            ContentFailure::RawMismatch { expected, actual } => ContentFailureView::RawMismatch {
                expected: expected@,
                actual: actual@,
            },
        }
    }
}

/// A discrepancy between two forms.
#[allow(inconsistent_fields)]
#[derive(Debug)]
pub enum FormMessage {
    /// A field of another kind than the expected one.
    KindMismatch { expected: FieldKind, actual: FieldKind },
    ValueMismatch { expected: String, actual: String },
    ItemMismatch { expected: String, actual: String },
    LengthMismatch { expected: usize, actual: usize },
    FilenameMismatch { expected: String, actual: String },
    MediaTypeMismatch { expected: String, actual: String },
    FileBody(ContentFailure),
    /// Expected fields of one kind that the actual form lacks.
    Missing { kind: FieldKind, names: Vec<String> },
    /// Actual fields of one kind that the expected form lacks.
    Additional { kind: FieldKind, names: Vec<String> },
}

#[allow(inconsistent_fields)]
pub ghost enum FormMessageView {
    KindMismatch { expected: FieldKind, actual: FieldKind },
    ValueMismatch { expected: Seq<char>, actual: Seq<char> },
    ItemMismatch { expected: Seq<char>, actual: Seq<char> },
    LengthMismatch { expected: nat, actual: nat },
    FilenameMismatch { expected: Seq<char>, actual: Seq<char> },
    MediaTypeMismatch { expected: Seq<char>, actual: Seq<char> },
    FileBody(ContentFailureView),
    Missing { kind: FieldKind, names: Seq<Seq<char>> },
    Additional { kind: FieldKind, names: Seq<Seq<char>> },
}

impl View for FormMessage {
    type V = FormMessageView;

    open spec fn view(&self) -> FormMessageView {
        match self {
            FormMessage::KindMismatch { expected, actual } => FormMessageView::KindMismatch {
                expected: *expected,
                actual: *actual,
            },
            FormMessage::ValueMismatch { expected, actual } => FormMessageView::ValueMismatch {
                expected: expected@,
                actual: actual@,
            },
            FormMessage::ItemMismatch { expected, actual } => FormMessageView::ItemMismatch {
                expected: expected@,
                actual: actual@,
            },
            FormMessage::LengthMismatch { expected, actual } => FormMessageView::LengthMismatch {
                expected: *expected as nat,
                actual: *actual as nat,
            },
            FormMessage::FilenameMismatch { expected, actual } => FormMessageView::FilenameMismatch {
                expected: expected@,
                actual: actual@,
            },
            FormMessage::MediaTypeMismatch { expected, actual } => FormMessageView::MediaTypeMismatch {
                expected: expected@,
                actual: actual@,
            },
            FormMessage::FileBody(f) => FormMessageView::FileBody(f@),
            FormMessage::Missing { kind, names } => FormMessageView::Missing {
                kind: *kind,
                names: texts_view(names@),
            },
            FormMessage::Additional { kind, names } => FormMessageView::Additional {
                kind: *kind,
                names: texts_view(names@),
            },
        }
    }
}

/// One discrepancy between two forms: where and what.
#[derive(Debug)]
pub struct FormRecord {
    pub path: Vec<PathSegment>,
    pub message: FormMessage,
}

pub ghost struct FormRecordView {
    pub path: Seq<SegmentView>,
    pub message: FormMessageView,
}

impl View for FormRecord {
    type V = FormRecordView;

    open spec fn view(&self) -> FormRecordView {
        FormRecordView { path: path_view(self.path@), message: self.message@ }
    }
}

pub open spec fn form_records_view(v: Seq<FormRecord>) -> Seq<FormRecordView> {
    v.map_values(|r: FormRecord| r@)
}

// ---------------------------------------------------------------------------
// Content

/// How actual content of media type `ct` fails to match the expected bytes,
/// if it does: identical bytes match; otherwise the actual content is read
/// by its media type and the expected bytes as the same kind. Text always
/// differs then; JSON differs where the trees do; anything else, forms
/// included, is compared as bytes.
pub open spec fn content_check(
    expected: Seq<u8>,
    actual: Seq<u8>,
    ct: Seq<char>,
    exact: bool,
    depth: nat,
) -> Option<ContentFailureView> {
    if expected == actual {
        None
    } else {
        match decoded(actual, ct) {
            Err(x) => Some(ContentFailureView::ActualUndecodable(x)),
            Ok(BodyView::Text(t)) => if valid_utf8(expected) {
                Some(ContentFailureView::TextMismatch { expected: decode_utf8(expected), actual: t })
            } else {
                Some(ContentFailureView::ExpectedUndecodable(CodecError::InvalidUtf8))
            },
            Ok(BodyView::Json(j)) => match crate::codec::json_of_bytes(expected) {
                Err(x) => Some(ContentFailureView::ExpectedUndecodable(x)),
                Ok(e) => if diff(e, j, depth, exact).len() == 0 {
                    None
                } else {
                    Some(ContentFailureView::JsonMismatch(diff(e, j, depth, exact)))
                },
            },
            Ok(_) => Some(ContentFailureView::RawMismatch { expected, actual }),
        }
    }
}

fn copy_vec(b: &Vec<u8>) -> (r: Vec<u8>)
    ensures
        r@ == b@,
{
    let r = crate::media::copy_range(b.as_slice(), 0, b.len());
    assert(b@.subrange(0, b@.len() as int) =~= b@);
    r
}

/// Compares actual content of media type `ct` with the expected bytes.
pub fn check_content(expected: &Vec<u8>, actual: &Vec<u8>, ct: &str, exact: bool, depth: usize) -> (r:
    Option<ContentFailure>)
    ensures
        match r {
            Some(f) => content_check(expected@, actual@, ct@, exact, depth as nat) == Some(f@),
            None => content_check(expected@, actual@, ct@, exact, depth as nat) is None,
        },
{
    if bytes_equal(expected, actual) {
        return None;
    }
    match decode(actual.as_slice(), ct) {
        Err(x) => Some(ContentFailure::ActualUndecodable(x)),
        Ok(TypedBody::Text(t)) => match utf8_text(expected.as_slice()) {
            Some(e) => Some(ContentFailure::TextMismatch { expected: e, actual: t }),
            None => Some(ContentFailure::ExpectedUndecodable(CodecError::InvalidUtf8)),
        },
        Ok(TypedBody::Json(j)) => {
            let e = match crate::codec::json_from_bytes(expected.as_slice()) {
                Ok(e) => e,
                Err(x) => {
                    return Some(ContentFailure::ExpectedUndecodable(x));
                },
            };
            match compare(&e, &j, depth, exact) {
                Ok(()) => None,
                Err(records) => Some(ContentFailure::JsonMismatch(records)),
            }
        },
        Ok(_) => Some(ContentFailure::RawMismatch { expected: copy_vec(expected), actual: copy_vec(actual) }),
    }
}

/// Whether two byte vectors are equal.
pub fn bytes_equal(a: &Vec<u8>, b: &Vec<u8>) -> (r: bool)
    ensures
        r == (a@ == b@),
{
    if a.len() != b.len() {
        return false;
    }
    let mut i: usize = 0;
    while i < a.len()
        invariant
            a@.len() == b@.len(),
            i <= a@.len(),
            forall|j: int| 0 <= j < i ==> a@[j] == b@[j],
        decreases a.len() - i,
    {
        if a[i] != b[i] {
            return false;
        }
        i = i + 1;
    }
    assert(a@ =~= b@);
    true
}


// ---------------------------------------------------------------------------
// Forms

/// The first field from `i` on named `name`.
pub open spec fn field_from(fs: Seq<FieldView>, name: Seq<char>, i: nat) -> Option<nat>
    decreases fs.len() - i,
{
    if i >= fs.len() {
        None
    } else if field_name(fs[i as int]) == name {
        Some(i)
    } else {
        field_from(fs, name, i + 1)
    }
}

/// The names of the fields of kind `kind` among the first `n` of `ef`
/// that no field of `af` bears, in order.
pub open spec fn absent_names(ef: Seq<FieldView>, af: Seq<FieldView>, kind: FieldKind, n: nat) -> Seq<
    Seq<char>,
>
    decreases n,
{
    if n == 0 || n > ef.len() {
        seq![]
    } else if field_kind(ef[n - 1]) == kind && field_from(af, field_name(ef[n - 1]), 0) is None {
        absent_names(ef, af, kind, (n - 1) as nat).push(field_name(ef[n - 1]))
    } else {
        absent_names(ef, af, kind, (n - 1) as nat)
    }
}

/// The record of the fields of one kind that `ef` has and `af` lacks.
pub open spec fn absent_record(ef: Seq<FieldView>, af: Seq<FieldView>, kind: FieldKind, missing: bool) -> Seq<
    FormRecordView,
> {
    let names = absent_names(ef, af, kind, ef.len());
    if names.len() == 0 {
        seq![]
    } else if missing {
        seq![FormRecordView { path: seq![], message: FormMessageView::Missing { kind, names } }]
    } else {
        seq![FormRecordView { path: seq![], message: FormMessageView::Additional { kind, names } }]
    }
}

/// The records of array items that differ, over the first `n` items.
pub open spec fn item_records(
    path: Seq<SegmentView>,
    ev: Seq<Seq<char>>,
    av: Seq<Seq<char>>,
    n: nat,
) -> Seq<FormRecordView>
    decreases n,
{
    if n == 0 || n > ev.len() || n > av.len() {
        seq![]
    } else {
        item_records(path, ev, av, (n - 1) as nat) + if ev[n - 1] == av[n - 1] {
            seq![]
        } else {
            seq![
                FormRecordView {
                    path: path.push(SegmentView::Index((n - 1) as nat)),
                    message: FormMessageView::ItemMismatch { expected: ev[n - 1], actual: av[n - 1] },
                },
            ]
        }
    }
}

/// The records of two fields of one name.
pub open spec fn field_records(
    path: Seq<SegmentView>,
    e: FieldView,
    a: FieldView,
    exact: bool,
    depth: nat,
) -> Seq<FormRecordView> {
    if field_kind(e) != field_kind(a) {
        seq![
            FormRecordView {
                path,
                message: FormMessageView::KindMismatch { expected: field_kind(e), actual: field_kind(a) },
            },
        ]
    } else {
        match (e, a) {
            (FieldView::Value(_, v), FieldView::Value(_, w)) => if v == w {
                seq![]
            } else {
                seq![FormRecordView { path, message: FormMessageView::ValueMismatch { expected: v, actual: w } }]
            },
            (FieldView::Array(_, vs), FieldView::Array(_, ws)) => (if vs.len() == ws.len() {
                seq![]
            } else {
                seq![
                    FormRecordView {
                        path,
                        message: FormMessageView::LengthMismatch { expected: vs.len(), actual: ws.len() },
                    },
                ]
            }) + item_records(path, vs, ws, if vs.len() <= ws.len() {
                vs.len()
            } else {
                ws.len()
            }),
            (FieldView::File(_, f, t, d), FieldView::File(_, g, u, x)) => (if f == g {
                seq![]
            } else {
                seq![
                    FormRecordView {
                        path,
                        message: FormMessageView::FilenameMismatch { expected: f, actual: g },
                    },
                ]
            }) + (if t == u {
                seq![]
            } else {
                seq![
                    FormRecordView {
                        path,
                        message: FormMessageView::MediaTypeMismatch { expected: t, actual: u },
                    },
                ]
            }) + match content_check(d, x, u, exact, depth) {
                Some(c) => seq![FormRecordView { path, message: FormMessageView::FileBody(c) }],
                None => seq![],
            },
            _ => seq![],
        }
    }
}

/// The records below the first `n` fields of `ef` that `af` shares.
pub open spec fn field_diffs(
    ef: Seq<FieldView>,
    af: Seq<FieldView>,
    exact: bool,
    depth: nat,
    n: nat,
) -> Seq<FormRecordView>
    decreases n,
{
    if n == 0 || n > ef.len() {
        seq![]
    } else {
        field_diffs(ef, af, exact, depth, (n - 1) as nat) + match field_from(
            af,
            field_name(ef[n - 1]),
            0,
        ) {
            Some(j) => if j < af.len() {
                field_records(
                    seq![SegmentView::Key(field_name(ef[n - 1]))],
                    ef[n - 1],
                    af[j as int],
                    exact,
                    depth,
                )
            } else {
                seq![]
            },
            None => seq![],
        }
    }
}

/// The records of comparing fields `ef` with fields `af`, in their order:
/// missing fields by kind, additional ones by kind where `exact`, then the
/// fields both have.
pub open spec fn fields_diff(ef: Seq<FieldView>, af: Seq<FieldView>, exact: bool, depth: nat) -> Seq<
    FormRecordView,
> {
    absent_record(ef, af, FieldKind::Field, true) + absent_record(ef, af, FieldKind::Array, true)
        + absent_record(ef, af, FieldKind::File, true) + (if exact {
        absent_record(af, ef, FieldKind::Field, false) + absent_record(af, ef, FieldKind::Array, false)
            + absent_record(af, ef, FieldKind::File, false)
    } else {
        seq![]
    }) + field_diffs(ef, af, exact, depth, ef.len())
}

fn kind_of_field(f: &HttpFormDataField) -> (r: FieldKind)
    ensures
        r == field_kind(f@),
{
    match f {
        HttpFormDataField::Value(..) => FieldKind::Field,
        HttpFormDataField::Array(..) => FieldKind::Array,
        HttpFormDataField::File(..) => FieldKind::File,
    }
}

fn name_of_field(f: &HttpFormDataField) -> (r: &String)
    ensures
        r@ == field_name(f@),
{
    match f {
        HttpFormDataField::Value(n, _) => n,
        HttpFormDataField::Array(n, _) => n,
        HttpFormDataField::File(n, ..) => n,
    }
}

fn find_field(fs: &Vec<HttpFormDataField>, name: &String) -> (r: Option<usize>)
    ensures
        match r {
            Some(i) => field_from(fields_view(fs@), name@, 0) == Some(i as nat) && i < fs@.len(),
            None => field_from(fields_view(fs@), name@, 0) is None,
        },
{
    let ghost fv = fields_view(fs@);
    let mut i: usize = 0;
    while i < fs.len()
        invariant
            i <= fs@.len(),
            fv == fields_view(fs@),
            field_from(fv, name@, 0) == field_from(fv, name@, i as nat),
        decreases fs.len() - i,
    {
        if *name_of_field(&fs[i]) == *name {
            return Some(i);
        }
        i = i + 1;
    }
    None
}

fn absent_of_kind(ef: &Vec<HttpFormDataField>, af: &Vec<HttpFormDataField>, kind: FieldKind) -> (r: Vec<String>)
    ensures
        texts_view(r@) == absent_names(fields_view(ef@), fields_view(af@), kind, ef@.len()),
{
    let ghost ev = fields_view(ef@);
    let ghost av = fields_view(af@);
    let mut r: Vec<String> = Vec::new();
    let mut i: usize = 0;
    assert(texts_view(r@) =~= seq![]);
    while i < ef.len()
        invariant
            i <= ef@.len(),
            ev == fields_view(ef@),
            av == fields_view(af@),
            texts_view(r@) == absent_names(ev, av, kind, i as nat),
        decreases ef.len() - i,
    {
        let name = name_of_field(&ef[i]);
        if kind_of_field(&ef[i]) == kind && find_field(af, name).is_none() {
            let ghost before = r@;
            let k = name.clone();
            r.push(k);
            assert(texts_view(r@) =~= texts_view(before).push(k@));
        }
        i = i + 1;
    }
    r
}

fn push_form_record(out: &mut Vec<FormRecord>, path: &Vec<PathSegment>, extra: Option<PathSegment>, message: FormMessage)
    ensures
        form_records_view(final(out)@) == form_records_view(old(out)@).push(
            FormRecordView {
                path: match extra {
                    Some(s) => path_view(path@).push(s@),
                    None => path_view(path@),
                },
                message: message@,
            },
        ),
{
    let rec = FormRecord { path: extend_path(path, extra), message };
    let ghost rv = rec@;
    out.push(rec);
    assert(form_records_view(final(out)@) =~= form_records_view(old(out)@).push(rv));
}

fn push_absent(out: &mut Vec<FormRecord>, ef: &Vec<HttpFormDataField>, af: &Vec<HttpFormDataField>, kind: FieldKind, missing: bool)
    ensures
        form_records_view(final(out)@) == form_records_view(old(out)@) + absent_record(
            fields_view(ef@),
            fields_view(af@),
            kind,
            missing,
        ),
{
    let names = absent_of_kind(ef, af, kind);
    let root: Vec<PathSegment> = Vec::new();
    assert(path_view(root@) =~= seq![]);
    if names.len() > 0 {
        if missing {
            push_form_record(out, &root, None, FormMessage::Missing { kind, names });
        } else {
            push_form_record(out, &root, None, FormMessage::Additional { kind, names });
        }
    } else {
        assert(form_records_view(final(out)@) =~= form_records_view(old(out)@) + seq![]);
    }
    assert(form_records_view(final(out)@) =~= form_records_view(old(out)@) + absent_record(
        fields_view(ef@),
        fields_view(af@),
        kind,
        missing,
    ));
}

fn compare_field(
    out: &mut Vec<FormRecord>,
    path: &Vec<PathSegment>,
    e: &HttpFormDataField,
    a: &HttpFormDataField,
    exact: bool,
    depth: usize,
)
    ensures
        form_records_view(final(out)@) == form_records_view(old(out)@) + field_records(
            path_view(path@),
            e@,
            a@,
            exact,
            depth as nat,
        ),
{
    let ghost pv = path_view(path@);
    let ghost start = form_records_view(out@);
    let ek = kind_of_field(e);
    let ak = kind_of_field(a);
    if ek != ak {
        push_form_record(out, path, None, FormMessage::KindMismatch { expected: ek, actual: ak });
        return;
    }
    match (e, a) {
        (HttpFormDataField::Value(_, v), HttpFormDataField::Value(_, w)) => {
            if *v != *w {
                push_form_record(
                    out,
                    path,
                    None,
                    FormMessage::ValueMismatch { expected: v.clone(), actual: w.clone() },
                );
            } else {
                assert(form_records_view(out@) =~= start + seq![]);
            }
        },
        (HttpFormDataField::Array(_, vs), HttpFormDataField::Array(_, ws)) => {
            let ghost ev = texts_view(vs@);
            let ghost av = texts_view(ws@);
            if vs.len() != ws.len() {
                push_form_record(
                    out,
                    path,
                    None,
                    FormMessage::LengthMismatch { expected: vs.len(), actual: ws.len() },
                );
            }
            let ghost head = form_records_view(out@);
            assert(head =~= start + (if ev.len() == av.len() {
                seq![]
            } else {
                seq![
                    FormRecordView {
                        path: pv,
                        message: FormMessageView::LengthMismatch { expected: ev.len(), actual: av.len() },
                    },
                ]
            }));
            let n = if vs.len() <= ws.len() {
                vs.len()
            } else {
                ws.len()
            };
            let mut i: usize = 0;
            assert(head =~= head + item_records(pv, ev, av, 0));
            while i < n
                invariant
                    i <= n,
                    n <= vs@.len(),
                    n <= ws@.len(),
                    ev == texts_view(vs@),
                    av == texts_view(ws@),
                    pv == path_view(path@),
                    form_records_view(out@) == head + item_records(pv, ev, av, i as nat),
                decreases n - i,
            {
                let ghost before = form_records_view(out@);
                if vs[i] != ws[i] {
                    push_form_record(
                        out,
                        path,
                        Some(PathSegment::Index(i)),
                        FormMessage::ItemMismatch { expected: vs[i].clone(), actual: ws[i].clone() },
                    );
                    assert(form_records_view(out@) =~= head + item_records(pv, ev, av, (i + 1) as nat));
                } else {
                    assert(form_records_view(out@) =~= head + item_records(pv, ev, av, (i + 1) as nat));
                }
                i = i + 1;
            }
            assert(form_records_view(out@) =~= start + field_records(pv, e@, a@, exact, depth as nat));
        },
        (HttpFormDataField::File(_, f, t, d), HttpFormDataField::File(_, g, u, x)) => {
            if *f != *g {
                push_form_record(
                    out,
                    path,
                    None,
                    FormMessage::FilenameMismatch { expected: f.clone(), actual: g.clone() },
                );
            }
            if *t != *u {
                push_form_record(
                    out,
                    path,
                    None,
                    FormMessage::MediaTypeMismatch { expected: t.clone(), actual: u.clone() },
                );
            }
            match check_content(d, x, u.as_str(), exact, depth) {
                Some(c) => {
                    push_form_record(out, path, None, FormMessage::FileBody(c));
                },
                None => {},
            }
            assert(form_records_view(out@) =~= start + field_records(pv, e@, a@, exact, depth as nat));
        },
        _ => {},
    }
}

fn compare_fields(expected: &Vec<HttpFormDataField>, actual: &Vec<HttpFormDataField>, exact: bool, depth: usize) -> (r:
    Vec<FormRecord>)
    ensures
        form_records_view(r@) == fields_diff(fields_view(expected@), fields_view(actual@), exact, depth as nat),
{
    let ghost ev = fields_view(expected@);
    let ghost av = fields_view(actual@);
    let mut out: Vec<FormRecord> = Vec::new();
    assert(form_records_view(out@) =~= seq![]);
    push_absent(&mut out, expected, actual, FieldKind::Field, true);
    push_absent(&mut out, expected, actual, FieldKind::Array, true);
    push_absent(&mut out, expected, actual, FieldKind::File, true);
    if exact {
        push_absent(&mut out, actual, expected, FieldKind::Field, false);
        push_absent(&mut out, actual, expected, FieldKind::Array, false);
        push_absent(&mut out, actual, expected, FieldKind::File, false);
    }
    let ghost head = form_records_view(out@);
    let mut i: usize = 0;
    assert(head =~= head + field_diffs(ev, av, exact, depth as nat, 0));
    while i < expected.len()
        invariant
            i <= expected@.len(),
            ev == fields_view(expected@),
            av == fields_view(actual@),
            form_records_view(out@) == head + field_diffs(ev, av, exact, depth as nat, i as nat),
        decreases expected.len() - i,
    {
        let name = name_of_field(&expected[i]);
        match find_field(actual, name) {
            Some(j) => {
                let mut path: Vec<PathSegment> = Vec::new();
                let seg = PathSegment::Key(name.clone());
                let ghost sv = seg@;
                path.push(seg);
                assert(path_view(path@) =~= seq![sv]);
                let ghost before = form_records_view(out@);
                compare_field(&mut out, &path, &expected[i], &actual[j], exact, depth);
                assert(form_records_view(out@) =~= head + field_diffs(ev, av, exact, depth as nat, (i + 1) as nat));
            },
            None => {
                assert(form_records_view(out@) =~= head + field_diffs(ev, av, exact, depth as nat, (i + 1) as nat));
            },
        }
        i = i + 1;
    }
    assert(form_records_view(out@) =~= fields_diff(ev, av, exact, depth as nat));
    out
}

/// The name by which fields are ordered.
pub open spec fn name_key(f: FieldView) -> Seq<u8> {
    crate::tree::key_bytes(field_name(f))
}

/// Where `f` goes among sorted fields, from `i` on: before the first field
/// whose name orders after its own.
pub open spec fn insert_pos(s: Seq<FieldView>, f: FieldView, i: nat) -> nat
    decreases s.len() - i,
{
    if i >= s.len() {
        s.len()
    } else if crate::tree::bytes_lt(name_key(f), name_key(s[i as int])) {
        i
    } else {
        insert_pos(s, f, i + 1)
    }
}

/// The fields sorted by name; fields of equal names keep their order.
pub open spec fn sort_fields(fs: Seq<FieldView>) -> Seq<FieldView>
    decreases fs.len(),
{
    if fs.len() == 0 {
        seq![]
    } else {
        let s = sort_fields(fs.drop_last());
        s.insert(insert_pos(s, fs.last(), 0) as int, fs.last())
    }
}

/// The records of comparing form `ef` with form `af`, both sorted by
/// field name: missing fields by kind, additional ones by kind where
/// `exact`, then the fields both have.
pub open spec fn form_diff(ef: Seq<FieldView>, af: Seq<FieldView>, exact: bool, depth: nat) -> Seq<
    FormRecordView,
> {
    fields_diff(sort_fields(ef), sort_fields(af), exact, depth)
}

fn copy_field(f: &HttpFormDataField) -> (r: HttpFormDataField)
    ensures
        r@ == f@,
{
    match f {
        HttpFormDataField::Value(n, v) => HttpFormDataField::Value(n.clone(), v.clone()),
        HttpFormDataField::Array(n, vs) => {
            let mut out: Vec<String> = Vec::new();
            let mut i: usize = 0;
            while i < vs.len()
                invariant
                    i <= vs@.len(),
                    texts_view(out@) == texts_view(vs@.take(i as int)),
                decreases vs.len() - i,
            {
                let ghost before = out@;
                let v = vs[i].clone();
                out.push(v);
                proof {
                    assert(vs@.take(i + 1) =~= vs@.take(i as int).push(vs@[i as int]));
                    assert(texts_view(out@) =~= texts_view(before).push(v@));
                    assert(texts_view(vs@.take(i + 1)) =~= texts_view(vs@.take(i as int)).push(vs@[i as int]@));
                }
                i = i + 1;
            }
            assert(vs@.take(i as int) =~= vs@);
            HttpFormDataField::Array(n.clone(), out)
        },
        HttpFormDataField::File(n, name, t, d) => HttpFormDataField::File(
            n.clone(),
            name.clone(),
            t.clone(),
            crate::mock::copy_bytes(d),
        ),
    }
}

/// Copies of the fields, sorted by name.
fn sorted_copy(fs: &Vec<HttpFormDataField>) -> (r: Vec<HttpFormDataField>)
    ensures
        fields_view(r@) == sort_fields(fields_view(fs@)),
{
    let ghost fv = fields_view(fs@);
    let mut out: Vec<HttpFormDataField> = Vec::new();
    let mut i: usize = 0;
    assert(fv.take(0) =~= seq![]);
    assert(fields_view(out@) =~= sort_fields(fv.take(0)));
    while i < fs.len()
        invariant
            i <= fs@.len(),
            fv == fields_view(fs@),
            fields_view(out@) == sort_fields(fv.take(i as int)),
        decreases fs.len() - i,
    {
        let f = copy_field(&fs[i]);
        let ghost sv = fields_view(out@);
        let mut p: usize = 0;
        while p < out.len() && !crate::tree::key_less(name_of_field(&f), name_of_field(&out[p]))
            invariant
                p <= out@.len(),
                sv == fields_view(out@),
                insert_pos(sv, f@, 0) == insert_pos(sv, f@, p as nat),
            decreases out.len() - p,
        {
            p = p + 1;
        }
        let ghost fw = f@;
        out.insert(p, f);
        proof {
            assert(fv.take(i + 1).drop_last() =~= fv.take(i as int));
            assert(fv.take(i + 1).last() == fv[i as int]);
            assert(fields_view(out@) =~= sv.insert(p as int, fw));
        }
        i = i + 1;
    }
    assert(fv.take(i as int) =~= fv);
    out
}

/// Compares form `expected` with form `actual`, each sorted by field name.
/// `Ok` when nothing differs; else every record, in order.
pub fn compare_form(expected: &Vec<HttpFormDataField>, actual: &Vec<HttpFormDataField>, exact: bool, depth: usize) -> (r:
    Result<(), Vec<FormRecord>>)
    ensures
        match r {
            Ok(()) => form_diff(fields_view(expected@), fields_view(actual@), exact, depth as nat).len() == 0,
            Err(records) => records@.len() > 0 && form_records_view(records@) == form_diff(
                fields_view(expected@),
                fields_view(actual@),
                exact,
                depth as nat,
            ),
        },
{
    let es = sorted_copy(expected);
    let as_ = sorted_copy(actual);
    let out = compare_fields(&es, &as_, exact, depth);
    if out.len() == 0 {
        Ok(())
    } else {
        Err(out)
    }
}


// ---------------------------------------------------------------------------
// Whole bodies

/// Why a body did not match its expectation.
#[derive(Debug)]
pub enum BodyFailure {
    Content(ContentFailure),
    Form(Vec<FormRecord>),
}

pub ghost enum BodyFailureView {
    Content(ContentFailureView),
    Form(Seq<FormRecordView>),
}

impl View for BodyFailure {
    type V = BodyFailureView;

    open spec fn view(&self) -> BodyFailureView {
        match self {
            BodyFailure::Content(c) => BodyFailureView::Content(c@),
            BodyFailure::Form(r) => BodyFailureView::Form(form_records_view(r@)),
        }
    }
}

/// How an actual body fails to match the expected one, if it does. Forms
/// are compared field by field, the expected body read by its own media
/// type; anything else as `content_check` says.
pub open spec fn body_check(
    expected: Seq<u8>,
    expected_type: Seq<char>,
    actual: Seq<u8>,
    actual_type: Seq<char>,
    exact: bool,
    depth: nat,
) -> Option<BodyFailureView> {
    if expected == actual {
        None
    } else {
        match decoded(actual, actual_type) {
            Ok(BodyView::Form(af)) => match decoded(expected, expected_type) {
                Ok(BodyView::Form(ef)) => if form_diff(ef, af, exact, depth).len() == 0 {
                    None
                } else {
                    Some(BodyFailureView::Form(form_diff(ef, af, exact, depth)))
                },
                Ok(_) => Some(
                    BodyFailureView::Content(ContentFailureView::RawMismatch { expected, actual }),
                ),
                Err(x) => Some(BodyFailureView::Content(ContentFailureView::ExpectedUndecodable(x))),
            },
            _ => match content_check(expected, actual, actual_type, exact, depth) {
                Some(c) => Some(BodyFailureView::Content(c)),
                None => None,
            },
        }
    }
}

/// Compares an actual body with the expected one.
pub fn validate_http_body(
    expected: &Vec<u8>,
    expected_type: &str,
    actual: &Vec<u8>,
    actual_type: &str,
    exact: bool,
    depth: usize,
) -> (r: Option<BodyFailure>)
    ensures
        match r {
            Some(f) => body_check(expected@, expected_type@, actual@, actual_type@, exact, depth as nat)
                == Some(f@),
            None => body_check(
                expected@,
                expected_type@,
                actual@,
                actual_type@,
                exact,
                depth as nat,
            ) is None,
        },
{
    if bytes_equal(expected, actual) {
        return None;
    }
    match decode(actual.as_slice(), actual_type) {
        Ok(TypedBody::Form(af)) => match decode(expected.as_slice(), expected_type) {
            Ok(TypedBody::Form(ef)) => match compare_form(&ef, &af, exact, depth) {
                Ok(()) => None,
                Err(records) => Some(BodyFailure::Form(records)),
            },
            Ok(_) => Some(
                BodyFailure::Content(
                    ContentFailure::RawMismatch { expected: copy_vec(expected), actual: copy_vec(actual) },
                ),
            ),
            Err(x) => Some(BodyFailure::Content(ContentFailure::ExpectedUndecodable(x))),
        },
        _ => match check_content(expected, actual, actual_type, exact, depth) {
            Some(c) => Some(BodyFailure::Content(c)),
            None => None,
        },
    }
}

} // verus!
