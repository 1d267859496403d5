//! Plain-text descriptions of diff records, for renderers that show them.
use vstd::prelude::*;
use vstd::string::StringExecFns;
use crate::codec::{append_digits, digits_text};
use crate::diff::{DiffMessage, DiffRecord, Found, FoundView, JsonKind, MessageView, PathSegment, SegmentView};
use crate::tree::JsonNumber;

verus! {

/// What the `json` crate writes for a number.
pub uninterp spec fn number_text(n: JsonNumber) -> Seq<char>;

/// Relies on the `Display` of `json::number::Number`: the number in
/// decimal notation.
#[verifier::external_body]
fn display_number(n: JsonNumber) -> (r: String)
    ensures
        r@ == number_text(n),
{
    json::number::Number::from_parts(n.positive, n.mantissa, n.exponent).to_string()
}

pub open spec fn kind_name(k: JsonKind) -> Seq<char> {
    match k {
        JsonKind::String => "String"@,
        JsonKind::Number => "Number"@,
        JsonKind::Boolean => "Boolean"@,
        JsonKind::Null => "Null"@,
        JsonKind::Object => "Object"@,
        JsonKind::Array => "Array"@,
    }
}

pub open spec fn bool_text(b: bool) -> Seq<char> {
    if b {
        "true"@
    } else {
        "false"@
    }
}

/// How a found value is described.
pub open spec fn found_text(f: FoundView) -> Seq<char> {
    match f {
        FoundView::String(s) => "String (\""@ + s + "\")"@,
        FoundView::Number(n) => "Number ("@ + number_text(n) + ")"@,
        FoundView::Boolean(b) => "Boolean ("@ + bool_text(b) + ")"@,
        FoundView::Null => "Null"@,
        FoundView::Object(n) => "Object with "@ + digits_text(n) + " key(s)"@,
        FoundView::Array(n) => "Array with "@ + digits_text(n) + " item(s)"@,
    }
}

/// Keys joined by a comma and a space.
pub open spec fn joined(keys: Seq<Seq<char>>) -> Seq<char>
    decreases keys.len(),
{
    if keys.len() == 0 {
        seq![]
    } else if keys.len() == 1 {
        keys[0]
    } else {
        joined(keys.drop_last()) + ", "@ + keys.last()
    }
}

/// The description of a diff message.
pub open spec fn message_text(m: MessageView) -> Seq<char> {
    match m {
        MessageView::TypeMismatch { expected, found } => "Expected a "@ + kind_name(expected)
            + " but found a "@ + found_text(found),
        MessageView::StringMismatch { expected, actual } => "String (\""@ + actual
            + "\") does not match expected value (\""@ + expected + "\")"@,
        MessageView::NumberMismatch { expected, actual } => "Number ("@ + number_text(actual)
            + ") does not match expected value ("@ + number_text(expected) + ")"@,
        MessageView::BooleanMismatch { expected, actual } => "Boolean ("@ + bool_text(actual)
            + ") does not match expected value ("@ + bool_text(expected) + ")"@,
        MessageView::LengthMismatch { expected, actual } => "Array with "@ + digits_text(actual)
            + " item(s) does not match expected length of "@ + digits_text(expected),
        MessageView::MissingKeys(keys) => "Object is missing "@ + digits_text(keys.len())
            + " key(s) ("@ + joined(keys) + ")"@,
        MessageView::AdditionalKeys(keys) => "Object has "@ + digits_text(keys.len())
            + " additional unexpected key(s) ("@ + joined(keys) + ")"@,
    }
}

/// The description of a path: `.key` for a member, `[i]` for an item.
pub open spec fn path_text(p: Seq<SegmentView>) -> Seq<char>
    decreases p.len(),
{
    if p.len() == 0 {
        seq![]
    } else {
        path_text(p.drop_last()) + match p.last() {
            SegmentView::Key(k) => "."@ + k,
            SegmentView::Index(i) => "["@ + digits_text(i) + "]"@,
        }
    }
}

fn append_keys(s: &mut String, keys: &Vec<String>)
    ensures
        final(s)@ == old(s)@ + joined(crate::diff::strings_view(keys@)),
{
    let ghost kv = crate::diff::strings_view(keys@);
    let mut i: usize = 0;
    assert(kv.take(0) =~= seq![]);
    while i < keys.len()
        invariant
            i <= keys@.len(),
            kv == crate::diff::strings_view(keys@),
            s@ == old(s)@ + joined(kv.take(i as int)),
        decreases keys.len() - i,
    {
        if i > 0 {
            s.append(", ");
        }
        s.append(keys[i].as_str());
        proof {
            let t = kv.take(i + 1);
            assert(t.drop_last() =~= kv.take(i as int));
            assert(t.last() == keys@[i as int]@);
            if i == 0 {
                assert(joined(t) == t[0]);
            }
            assert(s@ =~= old(s)@ + joined(t));
        }
        i = i + 1;
    }
    assert(kv.take(i as int) =~= kv);
}

fn append_found(s: &mut String, f: &Found)
    ensures
        final(s)@ == old(s)@ + found_text(f@),
{
    match f {
        Found::String(v) => {
            s.append("String (\"");
            s.append(v.as_str());
            s.append("\")");
        },
        Found::Number(n) => {
            s.append("Number (");
            let t = display_number(*n);
            s.append(t.as_str());
            s.append(")");
        },
        Found::Boolean(b) => {
            s.append("Boolean (");
            s.append(if *b { "true" } else { "false" });
            s.append(")");
        },
        Found::Null => {
            s.append("Null");
        },
        Found::Object(n) => {
            s.append("Object with ");
            append_digits(s, *n as u64);
            s.append(" key(s)");
        },
        Found::Array(n) => {
            s.append("Array with ");
            append_digits(s, *n as u64);
            s.append(" item(s)");
        },
    }
    assert(final(s)@ =~= old(s)@ + found_text(f@));
}

fn kind_str(k: JsonKind) -> (r: &'static str)
    ensures
        r@ == kind_name(k),
{
    match k {
        JsonKind::String => "String",
        JsonKind::Number => "Number",
        JsonKind::Boolean => "Boolean",
        JsonKind::Null => "Null",
        JsonKind::Object => "Object",
        JsonKind::Array => "Array",
    }
}

impl DiffMessage {
    /// The description of this message.
    pub fn text(&self) -> (r: String)
        ensures
            r@ == message_text(self@),
    {
        let mut s = String::new();
        match self {
            DiffMessage::TypeMismatch { expected, found } => {
                s.append("Expected a ");
                s.append(kind_str(*expected));
                s.append(" but found a ");
                append_found(&mut s, found);
            },
            DiffMessage::StringMismatch { expected, actual } => {
                s.append("String (\"");
                s.append(actual.as_str());
                s.append("\") does not match expected value (\"");
                s.append(expected.as_str());
                s.append("\")");
            },
            DiffMessage::NumberMismatch { expected, actual } => {
                s.append("Number (");
                let a = display_number(*actual);
                s.append(a.as_str());
                s.append(") does not match expected value (");
                let e = display_number(*expected);
                s.append(e.as_str());
                s.append(")");
            },
            DiffMessage::BooleanMismatch { expected, actual } => {
                s.append("Boolean (");
                s.append(if *actual { "true" } else { "false" });
                s.append(") does not match expected value (");
                s.append(if *expected { "true" } else { "false" });
                s.append(")");
            },
            DiffMessage::LengthMismatch { expected, actual } => {
                s.append("Array with ");
                append_digits(&mut s, *actual as u64);
                s.append(" item(s) does not match expected length of ");
                append_digits(&mut s, *expected as u64);
            },
            DiffMessage::MissingKeys(keys) => {
                s.append("Object is missing ");
                append_digits(&mut s, keys.len() as u64);
                s.append(" key(s) (");
                append_keys(&mut s, keys);
                s.append(")");
            },
            DiffMessage::AdditionalKeys(keys) => {
                s.append("Object has ");
                append_digits(&mut s, keys.len() as u64);
                s.append(" additional unexpected key(s) (");
                append_keys(&mut s, keys);
                s.append(")");
            },
        }
        assert(s@ =~= message_text(self@));
        s
    }
}

impl DiffRecord {
    /// The description of this record's path.
    pub fn path_text(&self) -> (r: String)
        ensures
            r@ == path_text(self@.path),
    {
        let ghost pv = self@.path;
        let mut s = String::new();
        let mut i: usize = 0;
        assert(pv.take(0) =~= seq![]);
        while i < self.path.len()
            invariant
                i <= self.path@.len(),
                pv == crate::diff::path_view(self.path@),
                s@ == path_text(pv.take(i as int)),
            decreases self.path.len() - i,
        {
            match &self.path[i] {
                PathSegment::Key(k) => {
                    s.append(".");
                    s.append(k.as_str());
                },
                PathSegment::Index(n) => {
                    s.append("[");
                    append_digits(&mut s, *n as u64);
                    s.append("]");
                },
            }
            proof {
                let t = pv.take(i + 1);
                assert(t.drop_last() =~= pv.take(i as int));
                assert(t.last() == self.path@[i as int]@);
                assert(s@ =~= path_text(t));
            }
            i = i + 1;
        }
        assert(pv.take(i as int) =~= pv);
        s
    }
}

} // verus!
