use noir::diff::{compare, DiffRecord};
use noir::tree::{Json, JsonNumber, JsonObject};

fn s(v: &str) -> Json {
    Json::String(v.to_string())
}

fn num(positive: bool, mantissa: u64, exponent: i16) -> Json {
    Json::Number(JsonNumber::new(positive, mantissa, exponent))
}

fn obj(entries: Vec<(&str, Json)>) -> Json {
    let mut o = JsonObject::new();
    for (k, v) in entries {
        o.insert(k.to_string(), v);
    }
    Json::Object(o)
}

fn arr(items: Vec<Json>) -> Json {
    Json::Array(items)
}

fn render(records: &[DiffRecord]) -> Vec<(String, String)> {
    records.iter().map(|r| (r.path_text(), r.message.text())).collect()
}

fn cmp_base(expected: Json, actual: Json, errors: Vec<(&str, &str)>, depth: usize, add: bool) {
    match compare(&expected, &actual, depth, add) {
        Ok(()) => assert!(errors.is_empty()),
        Err(e) => {
            let got = render(&e);
            let want: Vec<(String, String)> =
                errors.iter().map(|(p, m)| (p.to_string(), m.to_string())).collect();
            assert_eq!(got, want);
        }
    }
}

fn cmp(expected: Json, actual: Json, errors: Vec<(&str, &str)>) {
    cmp_base(expected, actual, errors, 1, false);
}

#[test]
fn test_compare_string() {
    cmp(s("Foo"), s("Foo"), vec![]);
    cmp(s("Foo"), s("Bar"), vec![("", "String (\"Bar\") does not match expected value (\"Foo\")")]);
    cmp(s("Foo"), num(true, 2, 0), vec![("", "Expected a String but found a Number (2)")]);
    cmp(s("Foo"), Json::Boolean(false), vec![("", "Expected a String but found a Boolean (false)")]);
    cmp(s("Foo"), Json::Null, vec![("", "Expected a String but found a Null")]);
    cmp(s("Foo"), obj(vec![]), vec![("", "Expected a String but found a Object with 0 key(s)")]);
    cmp(s("Foo"), arr(vec![]), vec![("", "Expected a String but found a Array with 0 item(s)")]);
}

#[test]
fn test_compare_number() {
    cmp(num(true, 428, -1), num(true, 428, -1), vec![]);
    cmp(num(true, 428, -1), s("Bar"), vec![("", "Expected a Number but found a String (\"Bar\")")]);
    cmp(num(true, 428, -1), num(true, 314, -2), vec![("", "Number (3.14) does not match expected value (42.8)")]);
    cmp(num(true, 428, -1), Json::Boolean(false), vec![("", "Expected a Number but found a Boolean (false)")]);
    cmp(num(true, 428, -1), Json::Null, vec![("", "Expected a Number but found a Null")]);
    cmp(num(true, 428, -1), obj(vec![]), vec![("", "Expected a Number but found a Object with 0 key(s)")]);
    cmp(num(true, 428, -1), arr(vec![]), vec![("", "Expected a Number but found a Array with 0 item(s)")]);
}

#[test]
fn test_compare_boolean() {
    cmp(Json::Boolean(true), Json::Boolean(true), vec![]);
    cmp(Json::Boolean(true), s("Bar"), vec![("", "Expected a Boolean but found a String (\"Bar\")")]);
    cmp(Json::Boolean(true), num(true, 314, -2), vec![("", "Expected a Boolean but found a Number (3.14)")]);
    cmp(Json::Boolean(true), Json::Boolean(false), vec![("", "Boolean (false) does not match expected value (true)")]);
    cmp(Json::Boolean(true), Json::Null, vec![("", "Expected a Boolean but found a Null")]);
    cmp(Json::Boolean(true), obj(vec![]), vec![("", "Expected a Boolean but found a Object with 0 key(s)")]);
    cmp(Json::Boolean(true), arr(vec![]), vec![("", "Expected a Boolean but found a Array with 0 item(s)")]);
}

#[test]
fn test_compare_null() {
    cmp(Json::Null, Json::Null, vec![]);
    cmp(Json::Null, s("Bar"), vec![("", "Expected a Null but found a String (\"Bar\")")]);
    cmp(Json::Null, num(true, 314, -2), vec![("", "Expected a Null but found a Number (3.14)")]);
    cmp(Json::Null, Json::Boolean(false), vec![("", "Expected a Null but found a Boolean (false)")]);
    cmp(Json::Null, obj(vec![]), vec![("", "Expected a Null but found a Object with 0 key(s)")]);
    cmp(Json::Null, arr(vec![]), vec![("", "Expected a Null but found a Array with 0 item(s)")]);
}

#[test]
fn test_compare_object() {
    cmp(obj(vec![]), obj(vec![]), vec![]);
    cmp(obj(vec![]), s("Bar"), vec![("", "Expected a Object but found a String (\"Bar\")")]);
    cmp(obj(vec![]), num(true, 314, -2), vec![("", "Expected a Object but found a Number (3.14)")]);
    cmp(obj(vec![]), Json::Boolean(false), vec![("", "Expected a Object but found a Boolean (false)")]);
    cmp(obj(vec![]), Json::Null, vec![("", "Expected a Object but found a Null")]);
    cmp(obj(vec![]), arr(vec![]), vec![("", "Expected a Object but found a Array with 0 item(s)")]);
}

#[test]
fn test_compare_array() {
    cmp(arr(vec![]), arr(vec![]), vec![]);
    cmp(arr(vec![]), s("Bar"), vec![("", "Expected a Array but found a String (\"Bar\")")]);
    cmp(arr(vec![]), num(true, 314, -2), vec![("", "Expected a Array but found a Number (3.14)")]);
    cmp(arr(vec![]), Json::Boolean(false), vec![("", "Expected a Array but found a Boolean (false)")]);
    cmp(arr(vec![]), Json::Null, vec![("", "Expected a Array but found a Null")]);
    cmp(arr(vec![]), obj(vec![]), vec![("", "Expected a Array but found a Object with 0 key(s)")]);
}

#[test]
fn test_compare_array_length() {
    cmp(arr(vec![]), arr(vec![num(true, 2, 0)]), vec![("", "Array with 1 item(s) does not match expected length of 0")]);
    cmp(arr(vec![num(true, 2, 0)]), arr(vec![]), vec![("", "Array with 0 item(s) does not match expected length of 1")]);
}

#[test]
fn test_compare_objects_keys_missing() {
    cmp(obj(vec![("key", s("value"))]), obj(vec![]), vec![("", "Object is missing 1 key(s) (key)")]);
    cmp(
        obj(vec![("key", s("value")), ("other", s("data"))]),
        obj(vec![]),
        vec![("", "Object is missing 2 key(s) (key, other)")],
    );
}

#[test]
fn test_compare_objects_keys_ignore_additional() {
    cmp(obj(vec![]), obj(vec![("key", s("value"))]), vec![]);
    cmp(obj(vec![]), obj(vec![("key", s("value")), ("other", s("data"))]), vec![]);
}

#[test]
fn test_compare_objects_keys_check_additional() {
    cmp_base(
        obj(vec![]),
        obj(vec![("key", s("value"))]),
        vec![("", "Object has 1 additional unexpected key(s) (key)")],
        1,
        true,
    );
    cmp_base(
        obj(vec![]),
        obj(vec![("key", s("value")), ("other", s("data"))]),
        vec![("", "Object has 2 additional unexpected key(s) (key, other)")],
        1,
        true,
    );
}

#[test]
fn test_compare_objects_deep_ignore_additional() {
    cmp_base(
        obj(vec![("key", s("value")), ("number", num(true, 2, 0)), ("missing", s("key"))]),
        obj(vec![("key", s("")), ("number", num(true, 4, 0)), ("additional", s("key"))]),
        vec![
            ("", "Object is missing 1 key(s) (missing)"),
            (".key", "String (\"\") does not match expected value (\"value\")"),
            (".number", "Number (4) does not match expected value (2)"),
        ],
        2,
        false,
    );
}

#[test]
fn test_compare_objects_deep_check_additional() {
    cmp_base(
        obj(vec![("key", s("value")), ("number", num(true, 2, 0)), ("missing", s("key"))]),
        obj(vec![("key", s("")), ("number", num(true, 4, 0)), ("additional", s("key"))]),
        vec![
            ("", "Object is missing 1 key(s) (missing)"),
            ("", "Object has 1 additional unexpected key(s) (additional)"),
            (".key", "String (\"\") does not match expected value (\"value\")"),
            (".number", "Number (4) does not match expected value (2)"),
        ],
        2,
        true,
    );
}

#[test]
fn test_compare_array_deep() {
    cmp_base(
        arr(vec![s("key"), num(true, 2, 0), s("missing")]),
        arr(vec![s("foo"), Json::Boolean(true)]),
        vec![
            ("", "Array with 2 item(s) does not match expected length of 3"),
            ("[0]", "String (\"foo\") does not match expected value (\"key\")"),
            ("[1]", "Expected a Number but found a Boolean (true)"),
        ],
        2,
        false,
    );
}

fn deep(n: u64) -> Json {
    obj(vec![("top", obj(vec![("sub", obj(vec![("level", arr(vec![num(true, n, 0)]))]))]))])
}

#[test]
fn test_compare_deep_paths() {
    cmp_base(deep(2), deep(3), vec![], 4, false);
    cmp_base(
        deep(2),
        deep(3),
        vec![(".top.sub.level[0]", "Number (3) does not match expected value (2)")],
        5,
        false,
    );
}

#[test]
fn compare_self_is_ok() {
    let tree = obj(vec![
        ("a", arr(vec![num(false, 15, -1), Json::Null, s("x")])),
        ("b", obj(vec![("c", Json::Boolean(true))])),
    ]);
    let same = obj(vec![
        ("a", arr(vec![num(false, 15, -1), Json::Null, s("x")])),
        ("b", obj(vec![("c", Json::Boolean(true))])),
    ]);
    assert!(compare(&tree, &same, 4096, false).is_ok());
}

#[test]
fn compare_type_mismatch_both_ways() {
    let a = obj(vec![("k", s("v"))]);
    let b = obj(vec![("k", num(true, 1, 0))]);
    let ab = compare(&a, &b, 8, false).unwrap_err();
    let ba = compare(&b, &a, 8, false).unwrap_err();
    assert_eq!(render(&ab), vec![(".k".to_string(), "Expected a String but found a Number (1)".to_string())]);
    assert_eq!(render(&ba), vec![(".k".to_string(), "Expected a Number but found a String (\"v\")".to_string())]);
}

#[test]
fn compare_depth_zero_reports_nothing() {
    let a = obj(vec![("a", num(true, 1, 0))]);
    let b = obj(vec![("a", num(true, 2, 0))]);
    assert!(compare(&a, &b, 0, false).is_ok());
    assert!(compare(&s("x"), &Json::Null, 0, true).is_ok());
}

#[test]
fn compare_numbers_within_tolerance() {
    assert!(compare(&num(true, 1, 0), &num(true, 1000000001, -9), 1, false).is_ok());
    assert!(compare(&num(true, 1, 0), &num(true, 100000002, -8), 1, false).is_err());
    assert!(compare(&num(true, 1, -9), &num(false, 1, -9), 1, false).is_ok());
    assert!(compare(&num(true, 1, -8), &num(false, 1, -8), 1, false).is_err());
    assert!(compare(&num(true, 5, -9), &num(true, 1, -30000), 1, false).is_ok());
    assert!(compare(&num(true, 5, -1), &num(true, 1, -30000), 1, false).is_err());
    assert!(compare(&num(true, 1, 300), &num(true, 1, 300), 1, false).is_ok());
    assert!(compare(&num(true, 1, 300), &num(true, 10, 299), 1, false).is_ok());
    assert!(compare(&num(true, 1, 300), &num(true, 11, 299), 1, false).is_err());
}

#[test]
fn unsorted_members_are_compared_in_key_order() {
    let a = Json::Object(JsonObject {
        entries: vec![("b".to_string(), s("x")), ("a".to_string(), s("x")), ("b".to_string(), s("y"))],
    });
    let b = obj(vec![("a", s("z")), ("b", s("w"))]);
    let records = compare(&a, &b, 4, false).unwrap_err();
    let got = render(&records);
    assert_eq!(got, vec![
        (".a".to_string(), "String (\"z\") does not match expected value (\"x\")".to_string()),
        (".b".to_string(), "String (\"w\") does not match expected value (\"y\")".to_string()),
    ]);
    let same = Json::Object(JsonObject {
        entries: vec![("k".to_string(), num(true, 1, 0)), ("k".to_string(), num(true, 2, 0))],
    });
    let again = Json::Object(JsonObject {
        entries: vec![("k".to_string(), num(true, 1, 0)), ("k".to_string(), num(true, 2, 0))],
    });
    assert!(compare(&same, &again, 4, true).is_ok());
}

#[test]
fn compare_numbers_by_value() {
    assert!(compare(&num(true, 10, -1), &num(true, 1, 0), 1, false).is_ok());
    assert!(compare(&num(true, 0, 3), &num(false, 0, 0), 1, false).is_ok());
    assert!(compare(&num(true, 1, 0), &num(false, 1, 0), 1, false).is_err());
}

#[test]
fn object_insert_keeps_keys_sorted_and_unique() {
    let mut o = JsonObject::new();
    o.insert("b".to_string(), Json::Null);
    o.insert("a".to_string(), Json::Null);
    o.insert("b".to_string(), Json::Boolean(true));
    let keys: Vec<&str> = o.entries.iter().map(|e| e.0.as_str()).collect();
    assert_eq!(keys, vec!["a", "b"]);
    assert!(matches!(o.entries[1].1, Json::Boolean(true)));
}

#[test]
fn additional_key_scenario() {
    let expected = obj(vec![("key", s("value"))]);
    let same = obj(vec![("key", s("value"))]);
    assert!(compare(&expected, &same, 4096, false).is_ok());
    let actual = obj(vec![("key", s("value")), ("extra", num(true, 1, 0))]);
    let records = compare(&expected, &actual, 4096, true).unwrap_err();
    assert_eq!(records.len(), 1);
    assert!(records[0].path.is_empty());
    assert_eq!(records[0].message.text(), "Object has 1 additional unexpected key(s) (extra)");
}
