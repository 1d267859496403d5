//! The structural diff engine: a depth-bounded, recursive comparison of an
//! expected JSON tree with an actual one, producing path-tagged records.
use vstd::prelude::*;
use crate::tree::{bytes_lt, key_bytes, key_less, Json, JsonNumber, JsonObject, close_numbers, min_int};

verus! {

/// The kinds of JSON values.
#[derive(Clone, Copy, Debug, PartialEq, Eq, Structural)]
pub enum JsonKind {
    String,
    Number,
    Boolean,
    Null,
    Object,
    Array,
}

pub open spec fn kind_of(j: Json) -> JsonKind {
    match j {
        Json::Null => JsonKind::Null,
        Json::Boolean(_) => JsonKind::Boolean,
        Json::Number(_) => JsonKind::Number,
        Json::String(_) => JsonKind::String,
        Json::Array(_) => JsonKind::Array,
        Json::Object(_) => JsonKind::Object,
    }
}

/// The kind of a value.
pub fn kind(j: &Json) -> (r: JsonKind)
    ensures
        r == kind_of(*j),
{
    match j {
        Json::Null => JsonKind::Null,
        Json::Boolean(_) => JsonKind::Boolean,
        Json::Number(_) => JsonKind::Number,
        Json::String(_) => JsonKind::String,
        Json::Array(_) => JsonKind::Array,
        Json::Object(_) => JsonKind::Object,
    }
}

/// One step of a path into a tree: an object key or an array index.
#[derive(Debug)]
pub enum PathSegment {
    Key(String),
    Index(usize),
}

pub ghost enum SegmentView {
    Key(Seq<char>),
    Index(nat),
}

impl View for PathSegment {
    type V = SegmentView;

    open spec fn view(&self) -> SegmentView {
        match self {
            PathSegment::Key(k) => SegmentView::Key(k@),
            PathSegment::Index(i) => SegmentView::Index(*i as nat),
        }
    }
}

/// What was found where a value of another kind was expected: the value
/// itself for a leaf, the number of members or items for an object or array.
#[derive(Debug)]
pub enum Found {
    String(String),
    Number(JsonNumber),
    Boolean(bool),
    Null,
    Object(usize),
    Array(usize),
}

pub ghost enum FoundView {
    String(Seq<char>),
    Number(JsonNumber),
    Boolean(bool),
    Null,
    Object(nat),
    Array(nat),
}

impl View for Found {
    type V = FoundView;

    open spec fn view(&self) -> FoundView {
        match self {
            Found::String(s) => FoundView::String(s@),
            Found::Number(n) => FoundView::Number(*n),
            Found::Boolean(b) => FoundView::Boolean(*b),
            Found::Null => FoundView::Null,
            Found::Object(n) => FoundView::Object(*n as nat),
            Found::Array(n) => FoundView::Array(*n as nat),
        }
    }
}

/// The kind of a mismatch, with the values that it is about.
#[derive(Debug)]
#[allow(inconsistent_fields)]
pub enum DiffMessage {
    /// A value of another kind than the expected one.
    TypeMismatch { expected: JsonKind, found: Found },
    StringMismatch { expected: String, actual: String },
    NumberMismatch { expected: JsonNumber, actual: JsonNumber },
    BooleanMismatch { expected: bool, actual: bool },
    /// Arrays of different lengths.
    LengthMismatch { expected: usize, actual: usize },
    /// Keys of the expected object that the actual one lacks.
    MissingKeys(Vec<String>),
    /// Keys of the actual object that the expected one lacks.
    AdditionalKeys(Vec<String>),
}

#[allow(inconsistent_fields)]
pub ghost enum MessageView {
    TypeMismatch { expected: JsonKind, found: FoundView },
    StringMismatch { expected: Seq<char>, actual: Seq<char> },
    NumberMismatch { expected: JsonNumber, actual: JsonNumber },
    BooleanMismatch { expected: bool, actual: bool },
    LengthMismatch { expected: nat, actual: nat },
    MissingKeys(Seq<Seq<char>>),
    AdditionalKeys(Seq<Seq<char>>),
}

pub open spec fn strings_view(v: Seq<String>) -> Seq<Seq<char>> {
    v.map_values(|s: String| s@)
}

impl View for DiffMessage {
    type V = MessageView;

    open spec fn view(&self) -> MessageView {
        match self {
            DiffMessage::TypeMismatch { expected, found } => MessageView::TypeMismatch {
                expected: *expected,
                found: found@,
            },
            DiffMessage::StringMismatch { expected, actual } => MessageView::StringMismatch {
                expected: expected@,
                actual: actual@,
            },
            DiffMessage::NumberMismatch { expected, actual } => MessageView::NumberMismatch {
                expected: *expected,
                actual: *actual,
            },
            DiffMessage::BooleanMismatch { expected, actual } => MessageView::BooleanMismatch {
                expected: *expected,
                actual: *actual,
            },
            DiffMessage::LengthMismatch { expected, actual } => MessageView::LengthMismatch {
                expected: *expected as nat,
                actual: *actual as nat,
            },
            DiffMessage::MissingKeys(keys) => MessageView::MissingKeys(strings_view(keys@)),
            DiffMessage::AdditionalKeys(keys) => MessageView::AdditionalKeys(strings_view(keys@)),
        }
    }
}

/// One discrepancy: where it is and what it is.
#[derive(Debug)]
pub struct DiffRecord {
    pub path: Vec<PathSegment>,
    pub message: DiffMessage,
}

pub ghost struct RecordView {
    pub path: Seq<SegmentView>,
    pub message: MessageView,
}

pub open spec fn path_view(p: Seq<PathSegment>) -> Seq<SegmentView> {
    p.map_values(|s: PathSegment| s@)
}

impl View for DiffRecord {
    type V = RecordView;

    open spec fn view(&self) -> RecordView {
        RecordView { path: path_view(self.path@), message: self.message@ }
    }
}

pub open spec fn records_view(v: Seq<DiffRecord>) -> Seq<RecordView> {
    v.map_values(|r: DiffRecord| r@)
}

// ---------------------------------------------------------------------------
// The diff as a function of the two trees

pub open spec fn found_of(j: Json) -> FoundView {
    match j {
        Json::String(s) => FoundView::String(s@),
        Json::Number(n) => FoundView::Number(n),
        Json::Boolean(b) => FoundView::Boolean(b),
        Json::Null => FoundView::Null,
        Json::Object(o) => FoundView::Object(o.entries@.len()),
        Json::Array(v) => FoundView::Array(v@.len()),
    }
}

/// The record of a value of the wrong kind.
pub open spec fn mismatch(path: Seq<SegmentView>, a: Json, b: Json) -> Seq<RecordView> {
    seq![RecordView { path, message: MessageView::TypeMismatch { expected: kind_of(a), found: found_of(b) } }]
}

/// The record, if any, of two leaves of the same kind.
pub open spec fn leaf_diff(path: Seq<SegmentView>, a: Json, b: Json) -> Seq<RecordView> {
    match (a, b) {
        (Json::String(x), Json::String(y)) => if x@ == y@ {
            seq![]
        } else {
            seq![RecordView { path, message: MessageView::StringMismatch { expected: x@, actual: y@ } }]
        },
        (Json::Number(x), Json::Number(y)) => if close_numbers(x, y) {
            seq![]
        } else {
            seq![RecordView { path, message: MessageView::NumberMismatch { expected: x, actual: y } }]
        },
        (Json::Boolean(x), Json::Boolean(y)) => if x == y {
            seq![]
        } else {
            seq![RecordView { path, message: MessageView::BooleanMismatch { expected: x, actual: y } }]
        },
        _ => seq![],
    }
}

/// The bytes of the key of entry `i`, by which members are ordered.
pub open spec fn entry_key(e: Seq<(String, Json)>, i: nat) -> Seq<u8> {
    key_bytes(e[i as int].0@)
}

/// Where entry `i` goes among the ordered members `s`, searching from `p`:
/// before the first member whose key does not order before its own.
pub open spec fn slot_of(e: Seq<(String, Json)>, s: Seq<nat>, i: nat, p: nat) -> nat
    decreases s.len() - p,
{
    if p >= s.len() {
        s.len()
    } else if bytes_lt(entry_key(e, s[p as int]), entry_key(e, i)) {
        slot_of(e, s, i, p + 1)
    } else {
        p
    }
}

/// The ordered members with entry `i` added: it replaces a member with
/// the same key, else it is inserted where its key orders.
pub open spec fn add_entry(e: Seq<(String, Json)>, s: Seq<nat>, i: nat) -> Seq<nat> {
    let p = slot_of(e, s, i, 0);
    if p < s.len() && e[s[p as int] as int].0@ == e[i as int].0@ {
        s.update(p as int, i)
    } else {
        s.insert(p as int, i)
    }
}

/// The members of the first `n` entries, as entry positions: in ascending
/// order of their keys, and for a key given twice the later entry.
pub open spec fn key_order(e: Seq<(String, Json)>, n: nat) -> Seq<nat>
    decreases n,
{
    if n == 0 || n > e.len() {
        seq![]
    } else {
        add_entry(e, key_order(e, (n - 1) as nat), (n - 1) as nat)
    }
}

/// The members of an object, as entry positions in key order.
pub open spec fn members(o: JsonObject) -> Seq<nat> {
    key_order(o.entries@, o.entries@.len())
}

/// The first member from `i` on whose key is `k`.
pub open spec fn find_member(e: Seq<(String, Json)>, s: Seq<nat>, k: Seq<char>, i: nat) -> Option<
    nat,
>
    decreases s.len() - i,
{
    if i >= s.len() {
        None
    } else if s[i as int] < e.len() && e[s[i as int] as int].0@ == k {
        Some(i)
    } else {
        find_member(e, s, k, i + 1)
    }
}

/// The keys of the first `n` members `sa` of `ea` that members `sb` of `eb`
/// lack, in order.
pub open spec fn absent_keys(
    ea: Seq<(String, Json)>,
    sa: Seq<nat>,
    eb: Seq<(String, Json)>,
    sb: Seq<nat>,
    n: nat,
) -> Seq<Seq<char>>
    decreases n,
{
    if n == 0 || n > sa.len() {
        seq![]
    } else {
        let k = ea[sa[n - 1] as int].0@;
        if find_member(eb, sb, k, 0) is None {
            absent_keys(ea, sa, eb, sb, (n - 1) as nat).push(k)
        } else {
            absent_keys(ea, sa, eb, sb, (n - 1) as nat)
        }
    }
}

/// The keys of object `oa` that object `ob` lacks, in key order.
pub open spec fn object_absent(oa: JsonObject, ob: JsonObject) -> Seq<Seq<char>> {
    absent_keys(oa.entries@, members(oa), ob.entries@, members(ob), members(oa).len())
}

/// The record of missing keys, if any.
pub open spec fn missing_record(path: Seq<SegmentView>, oa: JsonObject, ob: JsonObject) -> Seq<
    RecordView,
> {
    let keys = object_absent(oa, ob);
    if keys.len() == 0 {
        seq![]
    } else {
        seq![RecordView { path, message: MessageView::MissingKeys(keys) }]
    }
}

/// The record of additional keys, if they are checked and there are any.
pub open spec fn additional_record(
    check_additional: bool,
    path: Seq<SegmentView>,
    oa: JsonObject,
    ob: JsonObject,
) -> Seq<RecordView> {
    let keys = object_absent(ob, oa);
    if !check_additional || keys.len() == 0 {
        seq![]
    } else {
        seq![RecordView { path, message: MessageView::AdditionalKeys(keys) }]
    }
}

/// The record of arrays of different lengths, if they differ.
pub open spec fn length_record(path: Seq<SegmentView>, la: nat, lb: nat) -> Seq<RecordView> {
    if la == lb {
        seq![]
    } else {
        seq![RecordView { path, message: MessageView::LengthMismatch { expected: la, actual: lb } }]
    }
}

/// The number of direct children of a value.
pub open spec fn width(j: Json) -> nat {
    match j {
        Json::Array(v) => v@.len(),
        Json::Object(o) => members(o).len(),
        _ => 0,
    }
}

/// The records of a node and all below it, `depth` being the node's depth.
pub open spec fn json_diff(
    depth: nat,
    max_depth: nat,
    check_additional: bool,
    path: Seq<SegmentView>,
    a: Json,
    b: Json,
) -> Seq<RecordView>
    decreases a, width(a) + 1,
{
    if depth > max_depth {
        seq![]
    } else {
        match a {
            Json::Object(oa) => match b {
                Json::Object(ob) => missing_record(path, oa, ob) + additional_record(
                    check_additional,
                    path,
                    oa,
                    ob,
                ) + member_diffs(depth, max_depth, check_additional, path, a, ob, members(oa).len()),
                _ => mismatch(path, a, b),
            },
            Json::Array(va) => match b {
                Json::Array(vb) => length_record(path, va@.len(), vb@.len()) + item_diffs(
                    depth,
                    max_depth,
                    check_additional,
                    path,
                    a,
                    vb@,
                    if va@.len() <= vb@.len() {
                        va@.len()
                    } else {
                        vb@.len()
                    },
                ),
                _ => mismatch(path, a, b),
            },
            _ => if kind_of(a) == kind_of(b) {
                leaf_diff(path, a, b)
            } else {
                mismatch(path, a, b)
            },
        }
    }
}

/// The records below the first `n` members of object `a` that `ob` shares,
/// in key order.
pub open spec fn member_diffs(
    depth: nat,
    max_depth: nat,
    check_additional: bool,
    path: Seq<SegmentView>,
    a: Json,
    ob: JsonObject,
    n: nat,
) -> Seq<RecordView>
    decreases a, n,
{
    match a {
        Json::Object(oa) => if n == 0 || n > members(oa).len() {
            seq![]
        } else {
            let k = members(oa)[n - 1];
            let key = oa.entries@[k as int].0@;
            let sb = members(ob);
            member_diffs(depth, max_depth, check_additional, path, a, ob, (n - 1) as nat) + if k
                < oa.entries@.len() {
                match find_member(ob.entries@, sb, key, 0) {
                    Some(j) => if j < sb.len() && sb[j as int] < ob.entries@.len() {
                        json_diff(
                            (depth + 1) as nat,
                            max_depth,
                            check_additional,
                            path.push(SegmentView::Key(key)),
                            oa.entries@[k as int].1,
                            ob.entries@[sb[j as int] as int].1,
                        )
                    } else {
                        seq![]
                    },
                    None => seq![],
                }
            } else {
                seq![]
            }
        },
        _ => seq![],
    }
}

/// The records below the first `n` items of array `a` and of `vb`.
pub open spec fn item_diffs(
    depth: nat,
    max_depth: nat,
    check_additional: bool,
    path: Seq<SegmentView>,
    a: Json,
    vb: Seq<Json>,
    n: nat,
) -> Seq<RecordView>
    decreases a, n,
{
    match a {
        Json::Array(va) => if n == 0 || n > va@.len() || n > vb.len() {
            seq![]
        } else {
            item_diffs(depth, max_depth, check_additional, path, a, vb, (n - 1) as nat) + json_diff(
                (depth + 1) as nat,
                max_depth,
                check_additional,
                path.push(SegmentView::Index((n - 1) as nat)),
                va@[n - 1],
                vb[n - 1],
            )
        },
        _ => seq![],
    }
}

/// The records of comparing `expected` with `actual`; the root is at depth
/// 1, its children at depth 2, and nothing deeper than `max_depth` is
/// compared.
pub open spec fn diff(expected: Json, actual: Json, max_depth: nat, check_additional: bool) -> Seq<
    RecordView,
> {
    json_diff(1, max_depth, check_additional, seq![], expected, actual)
}


// ---------------------------------------------------------------------------
// Building records

fn copy_segment(s: &PathSegment) -> (r: PathSegment)
    ensures
        r@ == s@,
{
    match s {
        PathSegment::Key(k) => PathSegment::Key(k.clone()),
        PathSegment::Index(i) => PathSegment::Index(*i),
    }
}

/// A copy of `path`, extended by `last` when it is given.
pub fn extend_path(path: &Vec<PathSegment>, last: Option<PathSegment>) -> (r: Vec<PathSegment>)
    ensures
        path_view(r@) == match last {
            Some(s) => path_view(path@).push(s@),
            None => path_view(path@),
        },
{
    let mut r: Vec<PathSegment> = Vec::new();
    let mut i: usize = 0;
    while i < path.len()
        invariant
            i <= path@.len(),
            path_view(r@) == path_view(path@.take(i as int)),
        decreases path.len() - i,
    {
        let seg = copy_segment(&path[i]);
        let ghost before = r@;
        r.push(seg);
        proof {
            assert(path@.take(i + 1) =~= path@.take(i as int).push(path@[i as int]));
            assert(r@ =~= before.push(seg));
            assert(path_view(r@) =~= path_view(before).push(seg@));
            assert(path_view(path@.take(i + 1)) =~= path_view(path@.take(i as int)).push(
                path@[i as int]@,
            ));
        }
        i = i + 1;
    }
    assert(path@.take(path@.len() as int) =~= path@);
    match last {
        Some(seg) => {
            let ghost before = r@;
            let ghost sv = seg@;
            r.push(seg);
            assert(r@ =~= before.push(r@[before.len() as int]));
            assert(path_view(r@) =~= path_view(before).push(sv));
        },
        None => {},
    }
    r
}

fn push_record(out: &mut Vec<DiffRecord>, path: &Vec<PathSegment>, message: DiffMessage)
    ensures
        records_view(final(out)@) == records_view(old(out)@).push(
            RecordView { path: path_view(path@), message: message@ },
        ),
{
    let rec = DiffRecord { path: extend_path(path, None), message };
    let ghost rv = rec@;
    out.push(rec);
    assert(records_view(final(out)@) =~= records_view(old(out)@).push(rv));
}

fn append_records(out: &mut Vec<DiffRecord>, more: Vec<DiffRecord>)
    ensures
        records_view(final(out)@) == records_view(old(out)@) + records_view(more@),
{
    let mut more = more;
    let ghost m = more@;
    let ghost o = out@;
    out.append(&mut more);
    assert(out@ =~= o + m);
    assert(records_view(out@) =~= records_view(o) + records_view(m));
}

/// Entry positions as numbers.
pub open spec fn idx_view(v: Seq<usize>) -> Seq<nat> {
    v.map_values(|x: usize| x as nat)
}

/// The members of an object's entries, as positions in key order.
pub fn order_members(e: &Vec<(String, Json)>) -> (r: Vec<usize>)
    ensures
        idx_view(r@) == key_order(e@, e@.len()),
        forall|j: int| 0 <= j < r@.len() ==> r@[j] < e@.len(),
{
    let mut s: Vec<usize> = Vec::new();
    let mut i: usize = 0;
    assert(idx_view(s@) =~= key_order(e@, 0));
    while i < e.len()
        invariant
            i <= e@.len(),
            idx_view(s@) == key_order(e@, i as nat),
            forall|j: int| 0 <= j < s@.len() ==> s@[j] < i,
        decreases e.len() - i,
    {
        let ghost sv = idx_view(s@);
        let mut p: usize = 0;
        while p < s.len() && key_less(&e[s[p]].0, &e[i].0)
            invariant
                i < e@.len(),
                p <= s@.len(),
                sv == idx_view(s@),
                forall|j: int| 0 <= j < s@.len() ==> s@[j] < i,
                slot_of(e@, sv, i as nat, 0) == slot_of(e@, sv, i as nat, p as nat),
            decreases s.len() - p,
        {
            p = p + 1;
        }
        if p < s.len() && e[s[p]].0 == e[i].0 {
            s.set(p, i);
        } else {
            s.insert(p, i);
        }
        proof {
            assert(idx_view(s@) =~= add_entry(e@, sv, i as nat));
            assert forall|j: int| 0 <= j < s@.len() implies s@[j] < i + 1 by {
                if s@[j] != i {
                    assert(s@[j] < i);
                }
            }
        }
        i = i + 1;
    }
    s
}

/// The first member whose key is `k`.
pub fn find_member_in(e: &Vec<(String, Json)>, s: &Vec<usize>, k: &String) -> (r: Option<usize>)
    ensures
        match r {
            Some(i) => find_member(e@, idx_view(s@), k@, 0) == Some(i as nat) && i < s@.len(),
            None => find_member(e@, idx_view(s@), k@, 0) is None,
        },
{
    let ghost sv = idx_view(s@);
    let mut i: usize = 0;
    while i < s.len()
        invariant
            i <= s@.len(),
            sv == idx_view(s@),
            find_member(e@, sv, k@, 0) == find_member(e@, sv, k@, i as nat),
        decreases s.len() - i,
    {
        if s[i] < e.len() && e[s[i]].0 == *k {
            return Some(i);
        }
        i = i + 1;
    }
    None
}

/// The keys of members `sa` of `ea` that members `sb` of `eb` lack.
fn absent(ea: &Vec<(String, Json)>, sa: &Vec<usize>, eb: &Vec<(String, Json)>, sb: &Vec<usize>) -> (r:
    Vec<String>)
    requires
        forall|j: int| 0 <= j < sa@.len() ==> sa@[j] < ea@.len(),
    ensures
        strings_view(r@) == absent_keys(ea@, idx_view(sa@), eb@, idx_view(sb@), sa@.len()),
{
    let mut r: Vec<String> = Vec::new();
    let mut i: usize = 0;
    while i < sa.len()
        invariant
            i <= sa@.len(),
            forall|j: int| 0 <= j < sa@.len() ==> sa@[j] < ea@.len(),
            strings_view(r@) == absent_keys(ea@, idx_view(sa@), eb@, idx_view(sb@), i as nat),
        decreases sa.len() - i,
    {
        let k = sa[i];
        if find_member_in(eb, sb, &ea[k].0).is_none() {
            let key = ea[k].0.clone();
            let ghost before = r@;
            r.push(key);
            assert(strings_view(r@) =~= strings_view(before).push(key@));
        }
        i = i + 1;
    }
    r
}

fn found(b: &Json) -> (r: Found)
    ensures
        r@ == found_of(*b),
{
    match b {
        Json::String(s) => Found::String(s.clone()),
        Json::Number(n) => Found::Number(*n),
        Json::Boolean(x) => Found::Boolean(*x),
        Json::Null => Found::Null,
        Json::Object(o) => Found::Object(o.entries.len()),
        Json::Array(v) => Found::Array(v.len()),
    }
}

fn compare_leaf(path: &Vec<PathSegment>, a: &Json, b: &Json) -> (r: Vec<DiffRecord>)
    ensures
        records_view(r@) == leaf_diff(path_view(path@), *a, *b),
{
    let mut out: Vec<DiffRecord> = Vec::new();
    assert(records_view(out@) =~= seq![]);
    match (a, b) {
        (Json::String(x), Json::String(y)) => {
            if *x != *y {
                push_record(
                    &mut out,
                    path,
                    DiffMessage::StringMismatch { expected: x.clone(), actual: y.clone() },
                );
            }
        },
        (Json::Number(x), Json::Number(y)) => {
            if !x.close_to(y) {
                push_record(&mut out, path, DiffMessage::NumberMismatch { expected: *x, actual: *y });
            }
        },
        (Json::Boolean(x), Json::Boolean(y)) => {
            if *x != *y {
                push_record(
                    &mut out,
                    path,
                    DiffMessage::BooleanMismatch { expected: *x, actual: *y },
                );
            }
        },
        _ => {},
    }
    proof {
        assert(records_view(out@) =~= leaf_diff(path_view(path@), *a, *b));
    }
    out
}

fn compare_node(
    depth: usize,
    max_depth: usize,
    check_additional: bool,
    path: &Vec<PathSegment>,
    a: &Json,
    b: &Json,
) -> (r: Vec<DiffRecord>)
    ensures
        records_view(r@) == json_diff(
            depth as nat,
            max_depth as nat,
            check_additional,
            path_view(path@),
            *a,
            *b,
        ),
    decreases *a, width(*a) + 1,
{
    let ghost pv = path_view(path@);
    let mut out: Vec<DiffRecord> = Vec::new();
    assert(records_view(out@) =~= seq![]);
    if depth > max_depth {
        return out;
    }
    match (a, b) {
        (Json::Object(oa), Json::Object(ob)) => {
            let sa = order_members(&oa.entries);
            let sb = order_members(&ob.entries);
            let missing = absent(&oa.entries, &sa, &ob.entries, &sb);
            if missing.len() > 0 {
                push_record(&mut out, path, DiffMessage::MissingKeys(missing));
            }
            assert(records_view(out@) =~= missing_record(pv, *oa, *ob));
            let extra = absent(&ob.entries, &sb, &oa.entries, &sa);
            if check_additional && extra.len() > 0 {
                push_record(&mut out, path, DiffMessage::AdditionalKeys(extra));
            }
            assert(records_view(out@) =~= missing_record(pv, *oa, *ob) + additional_record(
                check_additional,
                pv,
                *oa,
                *ob,
            ));
            let mut i: usize = 0;
            let mut children: Vec<DiffRecord> = Vec::new();
            assert(records_view(children@) =~= seq![]);
            while i < sa.len()
                invariant
                    i <= sa@.len(),
                    *a == Json::Object(*oa),
                    *b == Json::Object(*ob),
                    idx_view(sa@) == members(*oa),
                    idx_view(sb@) == members(*ob),
                    forall|j: int| 0 <= j < sa@.len() ==> sa@[j] < oa.entries@.len(),
                    forall|j: int| 0 <= j < sb@.len() ==> sb@[j] < ob.entries@.len(),
                    depth <= max_depth,
                    pv == path_view(path@),
                    records_view(children@) == member_diffs(
                        depth as nat,
                        max_depth as nat,
                        check_additional,
                        pv,
                        *a,
                        *ob,
                        i as nat,
                    ),
                decreases sa.len() - i,
            {
                let ghost before = records_view(children@);
                let k = sa[i];
                let ghost key = oa.entries@[k as int].0@;
                match find_member_in(&ob.entries, &sb, &oa.entries[k].0) {
                    Some(j) => {
                        let kb = sb[j];
                        if depth < max_depth {
                            let child_path = extend_path(
                                path,
                                Some(PathSegment::Key(oa.entries[k].0.clone())),
                            );
                            let sub = compare_node(
                                depth + 1,
                                max_depth,
                                check_additional,
                                &child_path,
                                &oa.entries[k].1,
                                &ob.entries[kb].1,
                            );
                            append_records(&mut children, sub);
                        } else {
                            assert(json_diff(
                                (depth + 1) as nat,
                                max_depth as nat,
                                check_additional,
                                pv.push(SegmentView::Key(key)),
                                oa.entries@[k as int].1,
                                ob.entries@[kb as int].1,
                            ) =~= seq![]);
                            assert(records_view(children@) =~= before + seq![]);
                        }
                    },
                    None => {
                        assert(records_view(children@) =~= before + seq![]);
                    },
                }
                i = i + 1;
            }
            append_records(&mut out, children);
        },
        (Json::Array(va), Json::Array(vb)) => {
            if va.len() != vb.len() {
                push_record(
                    &mut out,
                    path,
                    DiffMessage::LengthMismatch { expected: va.len(), actual: vb.len() },
                );
            }
            assert(records_view(out@) =~= length_record(pv, va@.len(), vb@.len()));
            let n = if va.len() <= vb.len() {
                va.len()
            } else {
                vb.len()
            };
            let mut i: usize = 0;
            let mut children: Vec<DiffRecord> = Vec::new();
            assert(records_view(children@) =~= seq![]);
            while i < n
                invariant
                    i <= n,
                    n <= va@.len(),
                    n <= vb@.len(),
                    *a == Json::Array(*va),
                    depth <= max_depth,
                    pv == path_view(path@),
                    records_view(children@) == item_diffs(
                        depth as nat,
                        max_depth as nat,
                        check_additional,
                        pv,
                        *a,
                        vb@,
                        i as nat,
                    ),
                decreases n - i,
            {
                let ghost before = records_view(children@);
                if depth < max_depth {
                    let child_path = extend_path(path, Some(PathSegment::Index(i)));
                    let sub = compare_node(
                        depth + 1,
                        max_depth,
                        check_additional,
                        &child_path,
                        &va[i],
                        &vb[i],
                    );
                    append_records(&mut children, sub);
                } else {
                    assert(json_diff(
                        (depth + 1) as nat,
                        max_depth as nat,
                        check_additional,
                        pv.push(SegmentView::Index(i as nat)),
                        va@[i as int],
                        vb@[i as int],
                    ) =~= seq![]);
                    assert(records_view(children@) =~= before + seq![]);
                }
                i = i + 1;
            }
            append_records(&mut out, children);
        },
        _ => {
            if kind(a) == kind(b) && !matches!(a, Json::Object(_)) && !matches!(a, Json::Array(_)) {
                out = compare_leaf(path, a, b);
            } else {
                push_record(
                    &mut out,
                    path,
                    DiffMessage::TypeMismatch { expected: kind(a), found: found(b) },
                );
                assert(records_view(out@) =~= mismatch(pv, *a, *b));
            }
        },
    }
    out
}

/// Compares `expected` with `actual` down to `max_depth` levels below the
/// root. `Ok` when nothing differs; else every record, in order.
pub fn compare(expected: &Json, actual: &Json, max_depth: usize, check_additional_keys: bool) -> (r:
    Result<(), Vec<DiffRecord>>)
    ensures
        match r {
            Ok(()) => diff(*expected, *actual, max_depth as nat, check_additional_keys).len() == 0,
            Err(records) => records@.len() > 0 && records_view(records@) == diff(
                *expected,
                *actual,
                max_depth as nat,
                check_additional_keys,
            ),
        },
{
    let root: Vec<PathSegment> = Vec::new();
    assert(path_view(root@) =~= seq![]);
    let records = compare_node(1, max_depth, check_additional_keys, &root, expected, actual);
    if records.len() == 0 {
        Ok(())
    } else {
        Err(records)
    }
}


// ---------------------------------------------------------------------------
// Laws

/// Members in strictly ascending key order, each an entry.
pub open spec fn ordered_members(e: Seq<(String, Json)>, s: Seq<nat>) -> bool {
    &&& forall|j: int| 0 <= j < s.len() ==> #[trigger] s[j] < e.len()
    &&& forall|i: int, j: int|
        0 <= i < j < s.len() ==> bytes_lt(entry_key(e, #[trigger] s[i]), entry_key(e, #[trigger] s[j]))
}

proof fn lemma_slot(e: Seq<(String, Json)>, s: Seq<nat>, i: nat, p: nat)
    requires
        p <= s.len(),
    ensures
        p <= slot_of(e, s, i, p) <= s.len(),
        forall|j: int| p <= j < slot_of(e, s, i, p) ==> bytes_lt(entry_key(e, #[trigger] s[j]), entry_key(e, i)),
        slot_of(e, s, i, p) < s.len() ==> !bytes_lt(entry_key(e, s[slot_of(e, s, i, p) as int]), entry_key(e, i)),
    decreases s.len() - p,
{
    if p < s.len() && bytes_lt(entry_key(e, s[p as int]), entry_key(e, i)) {
        lemma_slot(e, s, i, p + 1);
    }
}

proof fn lemma_add_entry_ordered(e: Seq<(String, Json)>, s: Seq<nat>, i: nat)
    requires
        ordered_members(e, s),
        i < e.len(),
    ensures
        ordered_members(e, add_entry(e, s, i)),
{
    let p = slot_of(e, s, i, 0);
    lemma_slot(e, s, i, 0);
    let ki = entry_key(e, i);
    if p < s.len() && e[s[p as int] as int].0@ == e[i as int].0@ {
        let t = s.update(p as int, i);
        assert forall|a: int, b: int| 0 <= a < b < t.len() implies bytes_lt(
            entry_key(e, #[trigger] t[a]),
            entry_key(e, #[trigger] t[b]),
        ) by {
            assert(entry_key(e, s[p as int]) == ki);
        }
    } else {
        let t = s.insert(p as int, i);
        if p < s.len() {
            let kp = entry_key(e, s[p as int]);
            vstd::utf8::encode_utf8_decode_utf8(e[s[p as int] as int].0@);
            vstd::utf8::encode_utf8_decode_utf8(e[i as int].0@);
            crate::tree::lemma_bytes_lt_total(ki, kp);
            assert forall|j: int| p <= j < s.len() implies bytes_lt(ki, entry_key(e, #[trigger] s[j])) by {
                if j > p {
                    crate::tree::lemma_bytes_lt_transitive(ki, kp, entry_key(e, s[j]));
                }
            }
        }
        assert forall|a: int, b: int| 0 <= a < b < t.len() implies bytes_lt(
            entry_key(e, #[trigger] t[a]),
            entry_key(e, #[trigger] t[b]),
        ) by {
            if b < p {
                assert(t[a] == s[a] && t[b] == s[b]);
            } else if b == p {
                assert(t[a] == s[a]);
            } else if a == p {
                assert(t[b] == s[b - 1]);
            } else if a < p {
                assert(t[a] == s[a] && t[b] == s[b - 1]);
            } else {
                assert(t[a] == s[a - 1] && t[b] == s[b - 1]);
            }
        }
        assert forall|j: int| 0 <= j < t.len() implies #[trigger] t[j] < e.len() by {
            if j < p {
                assert(t[j] == s[j]);
            } else if j > p {
                assert(t[j] == s[j - 1]);
            }
        }
    }
}

proof fn lemma_key_order_ordered(e: Seq<(String, Json)>, n: nat)
    ensures
        ordered_members(e, key_order(e, n)),
    decreases n,
{
    if n > 0 && n <= e.len() {
        lemma_key_order_ordered(e, (n - 1) as nat);
        lemma_add_entry_ordered(e, key_order(e, (n - 1) as nat), (n - 1) as nat);
    }
}

proof fn lemma_find_member_found(e: Seq<(String, Json)>, s: Seq<nat>, k: Seq<char>, i: nat)
    ensures
        find_member(e, s, k, i) matches Some(j) ==> i <= j < s.len() && s[j as int] < e.len() && e[s[j as int] as int].0@ == k,
    decreases s.len() - i,
{
    if i < s.len() {
        lemma_find_member_found(e, s, k, i + 1);
    }
}

proof fn lemma_find_member_walk(e: Seq<(String, Json)>, s: Seq<nat>, k: Seq<char>, i: nat, p: nat)
    requires
        i < s.len(),
        p <= i,
        s[i as int] < e.len(),
        e[s[i as int] as int].0@ == k,
        forall|j: int| 0 <= j < i ==> !(s[j] < e.len() && #[trigger] e[s[j] as int].0@ == k),
    ensures
        find_member(e, s, k, p) == Some(i),
    decreases i - p,
{
    if p < i {
        lemma_find_member_walk(e, s, k, i, p + 1);
    }
}

/// In ordered members, a member's key finds that member.
proof fn lemma_find_own_member(e: Seq<(String, Json)>, s: Seq<nat>, i: nat)
    requires
        ordered_members(e, s),
        i < s.len(),
    ensures
        find_member(e, s, e[s[i as int] as int].0@, 0) == Some(i),
{
    let k = e[s[i as int] as int].0@;
    assert forall|j: int| 0 <= j < i implies !(s[j] < e.len() && #[trigger] e[s[j] as int].0@ == k) by {
        if e[s[j] as int].0@ == k {
            assert(bytes_lt(entry_key(e, s[j]), entry_key(e, s[i as int])));
            crate::tree::lemma_bytes_lt_irreflexive(entry_key(e, s[j]));
        }
    }
    lemma_find_member_walk(e, s, k, i, 0);
}

proof fn lemma_no_absent_keys(o: JsonObject, n: nat)
    requires
        n <= members(o).len(),
    ensures
        absent_keys(o.entries@, members(o), o.entries@, members(o), n) == Seq::<Seq<char>>::empty(),
    decreases n,
{
    if n > 0 {
        lemma_key_order_ordered(o.entries@, o.entries@.len());
        lemma_find_own_member(o.entries@, members(o), (n - 1) as nat);
        lemma_no_absent_keys(o, (n - 1) as nat);
    }
}

proof fn lemma_members_self(
    depth: nat,
    max_depth: nat,
    check_additional: bool,
    path: Seq<SegmentView>,
    a: Json,
    o: JsonObject,
    n: nat,
)
    requires
        a == Json::Object(o),
        n <= members(o).len(),
    ensures
        member_diffs(depth, max_depth, check_additional, path, a, o, n) == Seq::<RecordView>::empty(),
    decreases a, n,
{
    if n > 0 {
        let s = members(o);
        lemma_key_order_ordered(o.entries@, o.entries@.len());
        lemma_members_self(depth, max_depth, check_additional, path, a, o, (n - 1) as nat);
        lemma_find_own_member(o.entries@, s, (n - 1) as nat);
        let k = s[n - 1];
        let key = o.entries@[k as int].0@;
        lemma_self_diff((depth + 1) as nat, max_depth, check_additional, path.push(SegmentView::Key(key)), o.entries@[k as int].1);
        assert(member_diffs(depth, max_depth, check_additional, path, a, o, n) =~= seq![]);
    }
}

proof fn lemma_items_self(
    depth: nat,
    max_depth: nat,
    check_additional: bool,
    path: Seq<SegmentView>,
    a: Json,
    v: Vec<Json>,
    n: nat,
)
    requires
        a == Json::Array(v),
        n <= v@.len(),
    ensures
        item_diffs(depth, max_depth, check_additional, path, a, v@, n) == Seq::<RecordView>::empty(),
    decreases a, n,
{
    if n > 0 {
        lemma_items_self(depth, max_depth, check_additional, path, a, v, (n - 1) as nat);
        assert(decreases_to!(a => v));
        assert(decreases_to!(v => v[(n - 1) as int]));
        assert(decreases_to!(a => v@[n - 1]));
        lemma_self_diff(
            (depth + 1) as nat,
            max_depth,
            check_additional,
            path.push(SegmentView::Index((n - 1) as nat)),
            v@[n - 1],
        );
        assert(item_diffs(depth, max_depth, check_additional, path, a, v@, n) =~= seq![]);
    }
}

proof fn lemma_self_diff(depth: nat, max_depth: nat, check_additional: bool, path: Seq<SegmentView>, a: Json)
    ensures
        json_diff(depth, max_depth, check_additional, path, a, a) == Seq::<RecordView>::empty(),
    decreases a, width(a) + 1,
{
    if depth <= max_depth {
        match a {
            Json::Object(o) => {
                lemma_no_absent_keys(o, members(o).len());
                lemma_members_self(depth, max_depth, check_additional, path, a, o, members(o).len());
                assert(json_diff(depth, max_depth, check_additional, path, a, a) =~= seq![]);
            },
            Json::Array(v) => {
                lemma_items_self(depth, max_depth, check_additional, path, a, v, v@.len());
                assert(json_diff(depth, max_depth, check_additional, path, a, a) =~= seq![]);
            },
            Json::Number(n) => {
                crate::tree::lemma_pow10_large((-8 - min_int(min_int(n.exponent as int, n.exponent as int), -8)) as nat);
            },
            _ => {},
        }
    }
}

/// A tree compared with itself shows no difference, at any depth bound and
/// whether or not extra keys are checked.
pub proof fn lemma_compare_self_is_empty(a: Json, max_depth: nat, check_additional: bool)
    ensures
        diff(a, a, max_depth, check_additional) == Seq::<RecordView>::empty(),
{
    lemma_self_diff(1, max_depth, check_additional, seq![], a);
}

/// The kind of a found value.
pub open spec fn found_kind(f: FoundView) -> JsonKind {
    match f {
        FoundView::String(_) => JsonKind::String,
        FoundView::Number(_) => JsonKind::Number,
        FoundView::Boolean(_) => JsonKind::Boolean,
        FoundView::Null => JsonKind::Null,
        FoundView::Object(_) => JsonKind::Object,
        FoundView::Array(_) => JsonKind::Array,
    }
}

/// Whether record `r` stands at path `q` and reports a `k1` expected where
/// a `k2` was found.
pub open spec fn record_at(r: RecordView, q: Seq<SegmentView>, k1: JsonKind, k2: JsonKind) -> bool {
    r.path == q && match r.message {
        MessageView::TypeMismatch { expected, found } => expected == k1 && found_kind(found) == k2,
        _ => false,
    }
}

/// Whether some record stands at path `q` and reports a `k1` expected
/// where a `k2` was found.
pub open spec fn mismatch_at(rs: Seq<RecordView>, q: Seq<SegmentView>, k1: JsonKind, k2: JsonKind) -> bool {
    exists|i: int| 0 <= i < rs.len() && record_at(#[trigger] rs[i], q, k1, k2)
}

proof fn lemma_mismatch_concat(x: Seq<RecordView>, y: Seq<RecordView>, q: Seq<SegmentView>, x1: JsonKind, x2: JsonKind)
    ensures
        mismatch_at(x + y, q, x1, x2) <==> mismatch_at(x, q, x1, x2) || mismatch_at(y, q, x1, x2),
{
    let z = x + y;
    if mismatch_at(z, q, x1, x2) {
        let i = choose|i: int| 0 <= i < z.len() && record_at(#[trigger] z[i], q, x1, x2);
        if i < x.len() {
            assert(x[i] == z[i]);
        } else {
            assert(y[i - x.len()] == z[i]);
        }
    }
    if mismatch_at(x, q, x1, x2) {
        let i = choose|i: int| 0 <= i < x.len() && record_at(#[trigger] x[i], q, x1, x2);
        assert(z[i] == x[i]);
    }
    if mismatch_at(y, q, x1, x2) {
        let i = choose|i: int| 0 <= i < y.len() && record_at(#[trigger] y[i], q, x1, x2);
        assert(z[x.len() + i] == y[i]);
    }
}

proof fn lemma_no_mismatch_in_key_records(path: Seq<SegmentView>, oa: JsonObject, ob: JsonObject, q: Seq<SegmentView>, x1: JsonKind, x2: JsonKind)
    ensures
        !mismatch_at(missing_record(path, oa, ob), q, x1, x2),
        !mismatch_at(additional_record(false, path, oa, ob), q, x1, x2),
{
}

/// Whether the `i`th member of `oa` has a counterpart in `ob` whose
/// comparison reports a value of the wrong kind.
pub open spec fn member_mismatch(
    depth: nat,
    max_depth: nat,
    path: Seq<SegmentView>,
    oa: JsonObject,
    ob: JsonObject,
    i: int, q: Seq<SegmentView>, x1: JsonKind, x2: JsonKind,
) -> bool {
    let k = members(oa)[i];
    let sb = members(ob);
    k < oa.entries@.len() && match find_member(ob.entries@, sb, oa.entries@[k as int].0@, 0) {
        Some(j) => j < sb.len() && sb[j as int] < ob.entries@.len() && mismatch_at(
            json_diff(
                depth + 1,
                max_depth,
                false,
                path.push(SegmentView::Key(oa.entries@[k as int].0@)),
                oa.entries@[k as int].1,
                ob.entries@[sb[j as int] as int].1,
            ), q, x1, x2
        ),
        None => false,
    }
}

proof fn lemma_members_mismatch(
    depth: nat,
    max_depth: nat,
    path: Seq<SegmentView>,
    a: Json,
    oa: JsonObject,
    ob: JsonObject,
    n: nat,
    q: Seq<SegmentView>,
    x1: JsonKind,
    x2: JsonKind,
)
    requires
        a == Json::Object(oa),
        n <= members(oa).len(),
    ensures
        mismatch_at(member_diffs(depth, max_depth, false, path, a, ob, n), q, x1, x2) <==> exists|i: int|
            0 <= i < n && #[trigger] member_mismatch(depth, max_depth, path, oa, ob, i, q, x1, x2),
    decreases n,
{
    if n > 0 {
        lemma_members_mismatch(depth, max_depth, path, a, oa, ob, (n - 1) as nat, q, x1, x2);
        let prev = member_diffs(depth, max_depth, false, path, a, ob, (n - 1) as nat);
        let whole = member_diffs(depth, max_depth, false, path, a, ob, n);
        let last = whole.subrange(prev.len() as int, whole.len() as int);
        assert(whole =~= prev + last);
        lemma_mismatch_concat(prev, last, q, x1, x2);
        let s = members(oa);
        let sb = members(ob);
        let k = s[n - 1];
        if k < oa.entries@.len() {
            let key = oa.entries@[k as int].0@;
            match find_member(ob.entries@, sb, key, 0) {
                Some(j) => {
                    if j < sb.len() && sb[j as int] < ob.entries@.len() {
                        assert(last =~= json_diff(
                            depth + 1,
                            max_depth,
                            false,
                            path.push(SegmentView::Key(key)),
                            oa.entries@[k as int].1,
                            ob.entries@[sb[j as int] as int].1,
                        ));
                    } else {
                        assert(last =~= seq![]);
                    }
                },
                None => {
                    assert(last =~= seq![]);
                },
            }
        } else {
            assert(last =~= seq![]);
        }
        if mismatch_at(whole, q, x1, x2) {
            if !mismatch_at(prev, q, x1, x2) {
                assert(member_mismatch(depth, max_depth, path, oa, ob, n - 1, q, x1, x2));
            }
        }
    }
}

/// Whether the `i`th items of two arrays compare with a wrong-kind record.
pub open spec fn item_mismatch(
    depth: nat,
    max_depth: nat,
    path: Seq<SegmentView>,
    va: Seq<Json>,
    vb: Seq<Json>,
    i: int, q: Seq<SegmentView>, x1: JsonKind, x2: JsonKind,
) -> bool {
    mismatch_at(
        json_diff(depth + 1, max_depth, false, path.push(SegmentView::Index(i as nat)), va[i], vb[i]), q, x1, x2
    )
}

proof fn lemma_items_mismatch(
    depth: nat,
    max_depth: nat,
    path: Seq<SegmentView>,
    a: Json,
    v: Vec<Json>,
    vb: Seq<Json>,
    n: nat,
    q: Seq<SegmentView>,
    x1: JsonKind,
    x2: JsonKind,
)
    requires
        a == Json::Array(v),
        n <= v@.len(),
        n <= vb.len(),
    ensures
        mismatch_at(item_diffs(depth, max_depth, false, path, a, vb, n), q, x1, x2) <==> exists|i: int|
            0 <= i < n && #[trigger] item_mismatch(depth, max_depth, path, v@, vb, i, q, x1, x2),
    decreases n,
{
    if n > 0 {
        lemma_items_mismatch(depth, max_depth, path, a, v, vb, (n - 1) as nat, q, x1, x2);
        let prev = item_diffs(depth, max_depth, false, path, a, vb, (n - 1) as nat);
        let last = json_diff(
            depth + 1,
            max_depth,
            false,
            path.push(SegmentView::Index((n - 1) as nat)),
            v@[n - 1],
            vb[n - 1],
        );
        assert(item_diffs(depth, max_depth, false, path, a, vb, n) == prev + last);
        lemma_mismatch_concat(prev, last, q, x1, x2);
        if mismatch_at(prev + last, q, x1, x2) && !mismatch_at(prev, q, x1, x2) {
            assert(item_mismatch(depth, max_depth, path, v@, vb, n - 1, q, x1, x2));
        }
    }
}

#[verifier::rlimit(100)]
proof fn lemma_symmetric_objects(
    depth: nat,
    max_depth: nat,
    path: Seq<SegmentView>,
    a: Json,
    b: Json,
    oa: JsonObject,
    ob: JsonObject, q: Seq<SegmentView>, x1: JsonKind, x2: JsonKind,
)
    requires
        depth <= max_depth,
        a == Json::Object(oa),
        b == Json::Object(ob),
    ensures
        mismatch_at(json_diff(depth, max_depth, false, path, a, b), q, x1, x2) <==> mismatch_at(
            json_diff(depth, max_depth, false, path, b, a), q, x2, x1
        ),
    decreases a, width(a),
{
            let sa = members(oa);
            let sb = members(ob);
            let ma = member_diffs(depth, max_depth, false, path, a, ob, sa.len());
            let mb = member_diffs(depth, max_depth, false, path, b, oa, sb.len());
            lemma_mismatch_concat(missing_record(path, oa, ob) + additional_record(false, path, oa, ob), ma, q, x1, x2);
            lemma_mismatch_concat(missing_record(path, oa, ob), additional_record(false, path, oa, ob), q, x1, x2);
            lemma_mismatch_concat(missing_record(path, ob, oa) + additional_record(false, path, ob, oa), mb, q, x2, x1);
            lemma_mismatch_concat(missing_record(path, ob, oa), additional_record(false, path, ob, oa), q, x2, x1);
            lemma_no_mismatch_in_key_records(path, oa, ob, q, x1, x2);
            lemma_no_mismatch_in_key_records(path, ob, oa, q, x2, x1);
            lemma_members_mismatch(depth, max_depth, path, a, oa, ob, sa.len(), q, x1, x2);
            lemma_members_mismatch(depth, max_depth, path, b, ob, oa, sb.len(), q, x2, x1);
            lemma_key_order_ordered(oa.entries@, oa.entries@.len());
            lemma_key_order_ordered(ob.entries@, ob.entries@.len());
            let ea = oa.entries@;
            let eb = ob.entries@;
            if mismatch_at(ma, q, x1, x2) {
                let i = choose|i: int|
                    0 <= i < sa.len() && #[trigger] member_mismatch(depth, max_depth, path, oa, ob, i, q, x1, x2);
                let key = ea[sa[i] as int].0@;
                let j = find_member(eb, sb, key, 0)->Some_0;
                lemma_find_member_found(eb, sb, key, 0);
                lemma_find_own_member(ea, sa, i as nat);
                lemma_symmetric_node(depth + 1, max_depth, path.push(SegmentView::Key(key)), ea[sa[i] as int].1, eb[sb[j as int] as int].1, q, x1, x2);
                assert(member_mismatch(depth, max_depth, path, ob, oa, j as int, q, x2, x1));
            }
            if mismatch_at(mb, q, x2, x1) {
                let j = choose|j: int|
                    0 <= j < sb.len() && #[trigger] member_mismatch(depth, max_depth, path, ob, oa, j, q, x2, x1);
                let key = eb[sb[j] as int].0@;
                let i = find_member(ea, sa, key, 0)->Some_0;
                lemma_find_member_found(ea, sa, key, 0);
                lemma_find_own_member(eb, sb, j as nat);
                lemma_symmetric_node(depth + 1, max_depth, path.push(SegmentView::Key(key)), ea[sa[i as int] as int].1, eb[sb[j] as int].1, q, x1, x2);
                assert(member_mismatch(depth, max_depth, path, oa, ob, i as int, q, x1, x2));
            }
        }

#[verifier::rlimit(100)]
proof fn lemma_symmetric_node(depth: nat, max_depth: nat, path: Seq<SegmentView>, a: Json, b: Json, q: Seq<SegmentView>, x1: JsonKind, x2: JsonKind)
    ensures
        mismatch_at(json_diff(depth, max_depth, false, path, a, b), q, x1, x2) <==> mismatch_at(
            json_diff(depth, max_depth, false, path, b, a), q, x2, x1
        ),
    decreases a, width(a) + 1,
{
    if depth > max_depth {
        return;
    }
    match (a, b) {
        (Json::Object(oa), Json::Object(ob)) => {
            lemma_symmetric_objects(depth, max_depth, path, a, b, oa, ob, q, x1, x2);
        },
        (Json::Array(va), Json::Array(vb)) => {
            let n = if va@.len() <= vb@.len() {
                va@.len()
            } else {
                vb@.len()
            };
            let ia = item_diffs(depth, max_depth, false, path, a, vb@, n);
            let ib = item_diffs(depth, max_depth, false, path, b, va@, n);
            lemma_mismatch_concat(length_record(path, va@.len(), vb@.len()), ia, q, x1, x2);
            lemma_mismatch_concat(length_record(path, vb@.len(), va@.len()), ib, q, x2, x1);
            lemma_items_mismatch(depth, max_depth, path, a, va, vb@, n, q, x1, x2);
            lemma_items_mismatch(depth, max_depth, path, b, vb, va@, n, q, x2, x1);
            if mismatch_at(ia, q, x1, x2) {
                let i = choose|i: int| 0 <= i < n && #[trigger] item_mismatch(depth, max_depth, path, va@, vb@, i, q, x1, x2);
                lemma_symmetric_node(depth + 1, max_depth, path.push(SegmentView::Index(i as nat)), va@[i], vb@[i], q, x1, x2);
                assert(item_mismatch(depth, max_depth, path, vb@, va@, i, q, x2, x1));
            }
            if mismatch_at(ib, q, x2, x1) {
                let i = choose|i: int| 0 <= i < n && #[trigger] item_mismatch(depth, max_depth, path, vb@, va@, i, q, x2, x1);
                lemma_symmetric_node(depth + 1, max_depth, path.push(SegmentView::Index(i as nat)), va@[i], vb@[i], q, x1, x2);
                assert(item_mismatch(depth, max_depth, path, va@, vb@, i, q, x1, x2));
            }
        },
        _ => {
            let ab = json_diff(depth, max_depth, false, path, a, b);
            let ba = json_diff(depth, max_depth, false, path, b, a);
            if kind_of(a) != kind_of(b) {
                assert(found_kind(found_of(a)) == kind_of(a));
                assert(found_kind(found_of(b)) == kind_of(b));
                if mismatch_at(ab, q, x1, x2) {
                    assert(record_at(ba[0], q, x2, x1));
                }
                if mismatch_at(ba, q, x2, x1) {
                    assert(record_at(ab[0], q, x1, x2));
                }
            }
        },
    }
}

/// Comparing `a` with `b` reports, at path `at`, a `expected` value expected
/// where a `found` one was found exactly when comparing `b` with `a` reports,
/// at the same path, the roles swapped; extra keys unchecked.
pub proof fn lemma_type_mismatch_symmetric(
    a: Json,
    b: Json,
    max_depth: nat,
    q: Seq<SegmentView>,
    x1: JsonKind,
    x2: JsonKind,
)
    ensures
        mismatch_at(diff(a, b, max_depth, false), q, x1, x2) <==> mismatch_at(
            diff(b, a, max_depth, false), q, x2, x1
        ),
{
    lemma_symmetric_node(1, max_depth, seq![], a, b, q, x1, x2);
}

/// With a depth bound of zero nothing is reported, whatever the trees.
pub proof fn lemma_depth_zero_is_empty(expected: Json, actual: Json, check_additional: bool)
    ensures
        diff(expected, actual, 0, check_additional) == Seq::<RecordView>::empty(),
{
}

} // verus!
