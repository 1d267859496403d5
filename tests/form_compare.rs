use noir::diff::{DiffMessage, PathSegment};
use noir::form::HttpFormDataField;
use noir::validate::{compare_form, ContentFailure, FieldKind, FormMessage, FormRecord};

fn value(name: &str, v: &str) -> HttpFormDataField {
    HttpFormDataField::Value(name.to_string(), v.to_string())
}

fn array(name: &str, vs: Vec<&str>) -> HttpFormDataField {
    HttpFormDataField::Array(name.to_string(), vs.into_iter().map(|v| v.to_string()).collect())
}

fn file(name: &str, filename: &str, media: &str, data: &[u8]) -> HttpFormDataField {
    HttpFormDataField::File(name.to_string(), filename.to_string(), media.to_string(), data.to_vec())
}

fn path_of(r: &FormRecord) -> Vec<String> {
    r.path
        .iter()
        .map(|s| match s {
            PathSegment::Key(k) => format!(".{}", k),
            PathSegment::Index(i) => format!("[{}]", i),
        })
        .collect()
}

fn records(expected: Vec<HttpFormDataField>, actual: Vec<HttpFormDataField>, add: bool) -> Vec<FormRecord> {
    match compare_form(&expected, &actual, add, 4096) {
        Ok(()) => vec![],
        Err(r) => r,
    }
}

#[test]
fn test_compare_empty() {
    assert!(compare_form(&vec![], &vec![], false, 4096).is_ok());
}

#[test]
fn test_compare_fields() {
    assert!(records(vec![value("field", "value")], vec![value("field", "value")], false).is_empty());

    let r = records(vec![value("field", "value")], vec![value("field", "other value")], false);
    assert_eq!(r.len(), 1);
    assert_eq!(path_of(&r[0]), vec![".field"]);
    assert!(matches!(&r[0].message, FormMessage::ValueMismatch { expected, actual }
        if expected == "value" && actual == "other value"));

    let r = records(vec![value("field", "value")], vec![array("field", vec!["1"])], false);
    assert_eq!(r.len(), 1);
    assert_eq!(path_of(&r[0]), vec![".field"]);
    assert!(matches!(r[0].message, FormMessage::KindMismatch { expected: FieldKind::Field, actual: FieldKind::Array }));

    let r = records(vec![value("field", "value")], vec![file("field", "filename", "text/plain", b"Data")], false);
    assert_eq!(r.len(), 1);
    assert!(matches!(r[0].message, FormMessage::KindMismatch { expected: FieldKind::Field, actual: FieldKind::File }));
}

#[test]
fn test_compare_arrays() {
    assert!(records(vec![array("array[]", vec!["item"])], vec![array("array[]", vec!["item"])], false).is_empty());

    let r = records(vec![array("array[]", vec!["item"])], vec![value("array[]", "value")], false);
    assert_eq!(r.len(), 1);
    assert_eq!(path_of(&r[0]), vec![".array[]"]);
    assert!(matches!(r[0].message, FormMessage::KindMismatch { expected: FieldKind::Array, actual: FieldKind::Field }));

    let r = records(vec![array("array[]", vec!["item"])], vec![file("array[]", "filename", "text/plain", b"Data")], false);
    assert!(matches!(r[0].message, FormMessage::KindMismatch { expected: FieldKind::Array, actual: FieldKind::File }));

    let r = records(vec![array("array[]", vec!["item"])], vec![array("array[]", vec!["item", "item"])], false);
    assert_eq!(r.len(), 1);
    assert!(matches!(r[0].message, FormMessage::LengthMismatch { expected: 1, actual: 2 }));

    let r = records(vec![array("array[]", vec!["item", "item"])], vec![array("array[]", vec!["item"])], false);
    assert_eq!(r.len(), 1);
    assert!(matches!(r[0].message, FormMessage::LengthMismatch { expected: 2, actual: 1 }));

    let r = records(vec![array("array[]", vec!["item"])], vec![array("array[]", vec!["other item"])], false);
    assert_eq!(r.len(), 1);
    assert_eq!(path_of(&r[0]), vec![".array[]", "[0]"]);
    assert!(matches!(&r[0].message, FormMessage::ItemMismatch { expected, actual }
        if expected == "item" && actual == "other item"));
}

#[test]
fn test_compare_missing() {
    let r = records(vec![value("field", "value"), value("field2", "value")], vec![], false);
    assert_eq!(r.len(), 1);
    assert!(r[0].path.is_empty());
    assert!(matches!(&r[0].message, FormMessage::Missing { kind: FieldKind::Field, names }
        if names == &vec!["field".to_string(), "field2".to_string()]));
}

#[test]
fn test_compare_missing_ignore_additional() {
    assert!(records(vec![], vec![value("otherField", "value"), value("otherField2", "value")], false).is_empty());
}

#[test]
fn test_compare_additional_check_additional() {
    let r = records(vec![], vec![value("otherField", "value"), value("otherField2", "value")], true);
    assert_eq!(r.len(), 1);
    assert!(matches!(&r[0].message, FormMessage::Additional { kind: FieldKind::Field, names }
        if names == &vec!["otherField".to_string(), "otherField2".to_string()]));
}

#[test]
fn test_compare_files() {
    let data = file("file", "filename", "text/plain", b"Data");
    assert!(records(vec![data], vec![file("file", "filename", "text/plain", b"Data")], false).is_empty());

    let r = records(
        vec![file("file", "filename", "text/plain", b"Data")],
        vec![file("file", "otherFilename", "text/plain", b"Data")],
        false,
    );
    assert_eq!(r.len(), 1);
    assert_eq!(path_of(&r[0]), vec![".file"]);
    assert!(matches!(&r[0].message, FormMessage::FilenameMismatch { expected, actual }
        if expected == "filename" && actual == "otherFilename"));

    let r = records(
        vec![file("file", "filename", "text/plain", b"Data")],
        vec![file("file", "filename", "text/html", b"Data")],
        false,
    );
    assert_eq!(r.len(), 1);
    assert!(matches!(&r[0].message, FormMessage::MediaTypeMismatch { expected, actual }
        if expected == "text/plain" && actual == "text/html"));

    let r = records(
        vec![file("file", "filename", "application/octet-stream", &[0, 1, 2, 3, 4])],
        vec![file("file", "filename", "application/octet-stream", &[6, 4, 3, 2, 1, 0])],
        false,
    );
    assert_eq!(r.len(), 1);
    assert!(matches!(&r[0].message, FormMessage::FileBody(ContentFailure::RawMismatch { expected, actual })
        if expected == &vec![0, 1, 2, 3, 4] && actual == &vec![6, 4, 3, 2, 1, 0]));

    let r = records(
        vec![file("file", "filename", "text/plain", b"Data")],
        vec![file("file", "filename", "text/plain", b"Other Data")],
        false,
    );
    assert_eq!(r.len(), 1);
    assert!(matches!(&r[0].message, FormMessage::FileBody(ContentFailure::TextMismatch { expected, actual })
        if expected == "Data" && actual == "Other Data"));

    let r = records(
        vec![file("file", "filename", "application/json", b"{\"key\":\"value\"}")],
        vec![file("file", "filename", "application/json", b"{\"key\":\"otherValue\"}")],
        false,
    );
    assert_eq!(r.len(), 1);
    match &r[0].message {
        FormMessage::FileBody(ContentFailure::JsonMismatch(diffs)) => {
            assert_eq!(diffs.len(), 1);
            assert_eq!(diffs[0].path_text(), ".key");
            assert!(matches!(&diffs[0].message, DiffMessage::StringMismatch { expected, actual }
                if expected == "value" && actual == "otherValue"));
        }
        other => panic!("unexpected record {:?}", other),
    }
}

#[test]
fn fields_are_compared_in_name_order() {
    let r = records(
        vec![value("zeta", "1"), value("alpha", "1"), array("mid", vec!["a"])],
        vec![value("zeta", "2"), value("alpha", "3")],
        false,
    );
    assert_eq!(r.len(), 3);
    assert!(matches!(&r[0].message, FormMessage::Missing { kind: FieldKind::Array, names } if names == &vec!["mid".to_string()]));
    assert_eq!(path_of(&r[1]), vec![".alpha"]);
    assert_eq!(path_of(&r[2]), vec![".zeta"]);
}

#[test]
fn missing_names_are_sorted() {
    let r = records(vec![value("b", "1"), value("a", "1")], vec![], false);
    assert!(matches!(&r[0].message, FormMessage::Missing { kind: FieldKind::Field, names }
        if names == &vec!["a".to_string(), "b".to_string()]));
}
