use noir::codec::{decode, encode, encode_form, make_boundary, parse_form_data, HttpFormData, TypedBody};
use noir::form::{CodecError, HttpFormDataField};
use noir::media::{boundary, classify, BodyKind};
use noir::query::{HttpQueryString, HttpQueryStringItem};
use noir::tree::{Json, JsonObject};
use noir::validate::{validate_http_body, BodyFailure};

fn key_value() -> Json {
    let mut o = JsonObject::new();
    o.insert("key".to_string(), Json::String("value".to_string()));
    Json::Object(o)
}

#[test]
fn classify_media_types() {
    assert_eq!(classify("text/plain"), BodyKind::Text);
    assert_eq!(classify("Text/HTML; charset=utf-8"), BodyKind::Text);
    assert_eq!(classify("application/form-data; boundary=x"), BodyKind::Multipart);
    assert_eq!(classify("t\u{e9}xt/plain"), BodyKind::Raw);
    assert_eq!(classify("application/json"), BodyKind::Json);
    assert_eq!(classify("application/x-www-form-urlencoded"), BodyKind::UrlEncoded);
    assert_eq!(classify("multipart/form-data; boundary=xyz"), BodyKind::Multipart);
    assert_eq!(classify("application/octet-stream"), BodyKind::Raw);
    assert_eq!(classify(""), BodyKind::Raw);
}

#[test]
fn boundary_parameter() {
    assert_eq!(boundary("multipart/form-data; boundary=abc"), Some(b"abc".to_vec()));
    assert_eq!(boundary("multipart/form-data; BOUNDARY=\"qr\""), Some(b"qr".to_vec()));
    assert_eq!(boundary("multipart/form-data"), None);
}

#[test]
fn decode_text() {
    assert!(matches!(decode(b"hello", "text/plain"), Ok(TypedBody::Text(t)) if t == "hello"));
    assert!(matches!(decode(&[0xff, 0xfe], "text/plain"), Err(CodecError::InvalidUtf8)));
}

#[test]
fn decode_json() {
    match decode(b"{\"key\":\"value\"}", "application/json") {
        Ok(TypedBody::Json(Json::Object(o))) => {
            assert_eq!(o.entries.len(), 1);
            assert_eq!(o.entries[0].0, "key");
            assert!(matches!(&o.entries[0].1, Json::String(v) if v == "value"));
        }
        other => panic!("unexpected {:?}", other),
    }
    assert!(matches!(decode(b"{\"key\":", "application/json"), Err(CodecError::InvalidJson { .. })));
    assert!(matches!(decode(b"{x}", "application/json"), Err(CodecError::InvalidJson { line: 1, column: 2 })));
    assert!(matches!(decode(&[0xff], "application/json"), Err(CodecError::InvalidUtf8)));
}

#[test]
fn decode_raw() {
    assert!(matches!(decode(&[1, 2, 3], "image/png"), Ok(TypedBody::Raw(v)) if v == vec![1, 2, 3]));
}

#[test]
fn decode_urlencoded_groups_repeated_names() {
    match decode(b"a=1&list=x&list=y&b=hello%20world", "application/x-www-form-urlencoded") {
        Ok(TypedBody::Form(fs)) => {
            assert_eq!(fs.len(), 3);
            assert!(matches!(&fs[0], HttpFormDataField::Value(n, v) if n == "a" && v == "1"));
            assert!(matches!(&fs[1], HttpFormDataField::Array(n, vs) if n == "list" && vs == &vec!["x".to_string(), "y".to_string()]));
            assert!(matches!(&fs[2], HttpFormDataField::Value(n, v) if n == "b" && v == "hello world"));
        }
        other => panic!("unexpected {:?}", other),
    }
}

fn multipart_fields() -> Vec<HttpFormDataField> {
    vec![
        HttpFormDataField::Value("field".to_string(), "value".to_string()),
        HttpFormDataField::File("upload".to_string(), "data.bin".to_string(), "application/octet-stream".to_string(), vec![0, 13, 10, 255, 45, 45]),
    ]
}

#[test]
fn multipart_round_trip() {
    let body = encode_form(&multipart_fields(), 1, 2);
    assert_eq!(body.content_type, "multipart/form-data; boundary=boundary12");
    match decode(&body.data, &body.content_type) {
        Ok(TypedBody::Form(fs)) => {
            assert_eq!(fs.len(), 2);
            assert!(matches!(&fs[0], HttpFormDataField::Value(n, v) if n == "field" && v == "value"));
            assert!(matches!(&fs[1], HttpFormDataField::File(n, f, t, d)
                if n == "upload" && f == "data.bin" && t == "application/octet-stream" && d == &vec![0, 13, 10, 255, 45, 45]));
        }
        other => panic!("unexpected {:?}", other),
    }
}

#[test]
fn multipart_encoding_layout() {
    let fields = vec![
        HttpFormDataField::Value("a".to_string(), "1".to_string()),
        HttpFormDataField::File("f".to_string(), "x.txt".to_string(), "text/plain".to_string(), b"hi".to_vec()),
    ];
    let body = encode_form(&fields, 7, 8);
    let text = String::from_utf8(body.data).unwrap();
    assert_eq!(
        text,
        "\r\n--boundary78\r\nContent-Disposition: form-data; name=\"a\"\r\n\r\n1\
         \r\n--boundary78\r\nContent-Disposition: form-data; name=\"f\"; filename=\"x.txt\"\r\nContent-Type: text/plain\r\n\r\nhi\
         \r\n--boundary78--\r\n"
    );
}

#[test]
fn multipart_missing_disposition() {
    let data = b"\r\n--b\r\nContent-Type: text/plain\r\n\r\nx\r\n--b--\r\n";
    assert!(matches!(decode(data, "multipart/form-data; boundary=b"), Err(CodecError::MissingDisposition)));
}

#[test]
fn multipart_broken_headers() {
    let data = b"\r\n--b\r\nContent-Disposition form-data\r\n\r\nx\r\n--b--\r\n";
    assert!(matches!(decode(data, "multipart/form-data; boundary=b"), Err(CodecError::MalformedHeader)));
}

#[test]
fn multipart_filename_invalid_utf8() {
    let mut data = b"\r\n--b\r\nContent-Disposition: form-data; name=\"f\"; filename=\"".to_vec();
    data.push(0xff);
    data.extend_from_slice(b"\"\r\n\r\nx\r\n--b--\r\n");
    assert!(matches!(decode(&data, "multipart/form-data; boundary=b"), Err(CodecError::InvalidUtf8)));
}

#[test]
fn multipart_too_many_headers() {
    let mut data = b"\r\n--b\r\nContent-Disposition: form-data; name=\"f\"\r\n".to_vec();
    for i in 0..20 {
        data.extend_from_slice(format!("X-{}: {}\r\n", i, i).as_bytes());
    }
    data.extend_from_slice(b"\r\nx\r\n--b--\r\n");
    assert!(matches!(decode(&data, "multipart/form-data; boundary=b"), Err(CodecError::MalformedHeader)));
}

#[test]
fn multipart_starting_with_delimiter() {
    let data = b"--b\r\nContent-Disposition: form-data; name=\"k\"\r\n\r\nv\r\n--b--\r\n";
    match decode(data, "multipart/form-data; boundary=b") {
        Ok(TypedBody::Form(fs)) => {
            assert_eq!(fs.len(), 1);
            assert!(matches!(&fs[0], HttpFormDataField::Value(n, v) if n == "k" && v == "v"));
        }
        other => panic!("unexpected {:?}", other),
    }
}

#[test]
fn urlencoded_form_encoding() {
    let fields = vec![
        HttpFormDataField::Value("a".to_string(), "1 2".to_string()),
        HttpFormDataField::Array("list[]".to_string(), vec!["x".to_string(), "y".to_string()]),
    ];
    let body = encode_form(&fields, 0, 0);
    assert_eq!(body.content_type, "application/x-www-form-urlencoded");
    assert_eq!(String::from_utf8(body.data).unwrap(), "a=1+2&list%5B%5D=x&list%5B%5D=y");
}

#[test]
fn json_round_trip() {
    let body = encode(&TypedBody::Json(key_value()));
    assert_eq!(body.content_type, "application/json");
    assert_eq!(body.data, b"{\"key\":\"value\"}".to_vec());
    match decode(&body.data, &body.content_type) {
        Ok(TypedBody::Json(j)) => assert!(noir::diff::compare(&key_value(), &j, 4096, true).is_ok()),
        other => panic!("unexpected {:?}", other),
    }
}

#[test]
fn text_and_raw_encoding() {
    let t = encode(&TypedBody::Text("hé".to_string()));
    assert_eq!(t.content_type, "text/plain");
    assert_eq!(t.data, "hé".as_bytes().to_vec());
    let r = encode(&TypedBody::Raw(vec![9, 8]));
    assert_eq!(r.content_type, "application/octet-stream");
    assert_eq!(r.data, vec![9, 8]);
}

#[test]
fn random_boundary_form() {
    let body = encode(&TypedBody::Form(multipart_fields()));
    assert!(body.content_type.starts_with("multipart/form-data; boundary=boundary"));
    assert!(matches!(decode(&body.data, &body.content_type), Ok(TypedBody::Form(fs)) if fs.len() == 2));
}

#[test]
fn boundary_digits() {
    assert_eq!(make_boundary(0, 18446744073709551615), "boundary018446744073709551615");
}

#[test]
fn query_string() {
    let q = HttpQueryString::new(vec![
        HttpQueryStringItem::Value("key".to_string(), "value".to_string()),
        HttpQueryStringItem::Array("array[]".to_string(), vec!["item1".to_string(), "item2".to_string()]),
        HttpQueryStringItem::Value("number".to_string(), "42".to_string()),
    ]);
    assert_eq!(q.to_string(), "key=value&array%5B%5D=item1&array%5B%5D=item2&number=42");
    assert_eq!(HttpQueryString::new(vec![]).to_string(), "");
}

#[test]
fn body_checks() {
    let same = validate_http_body(&b"abc".to_vec(), "text/plain", &b"abc".to_vec(), "text/plain", false, 10);
    assert!(same.is_none());
    let json_same = validate_http_body(&b"{\"a\": 1}".to_vec(), "application/json", &b"{\"a\":1}".to_vec(), "application/json", false, 10);
    assert!(json_same.is_none());
    let json_diff = validate_http_body(&b"{\"a\":1}".to_vec(), "application/json", &b"{\"a\":2}".to_vec(), "application/json", false, 10);
    assert!(matches!(json_diff, Some(BodyFailure::Content(_))));
    let form_diff = validate_http_body(
        &b"a=1".to_vec(),
        "application/x-www-form-urlencoded",
        &b"a=2".to_vec(),
        "application/x-www-form-urlencoded",
        false,
        10,
    );
    assert!(matches!(form_diff, Some(BodyFailure::Form(r)) if r.len() == 1));
    let bad_actual = validate_http_body(&b"{}".to_vec(), "application/json", &b"{".to_vec(), "application/json", false, 10);
    assert!(matches!(bad_actual, Some(BodyFailure::Content(noir::validate::ContentFailure::ActualUndecodable(_)))));
}

#[test]
fn form_data_parts() {
    let plain = HttpFormData::new(vec![HttpFormDataField::Value("a".to_string(), "b".to_string())]);
    assert!(!plain.is_multipart());
    let body = plain.into_body_parts(1, 1);
    assert_eq!(body.data, b"a=b".to_vec());
    let parsed = parse_form_data(&body.data, None).unwrap();
    assert!(matches!(&parsed.fields[0], HttpFormDataField::Value(n, v) if n == "a" && v == "b"));

    let multi = HttpFormData::new(multipart_fields());
    assert!(multi.is_multipart());
    let body = multi.into_body_parts(3, 4);
    let parsed = parse_form_data(&body.data, Some(b"boundary34")).unwrap();
    assert_eq!(parsed.fields.len(), 2);
    assert!(matches!(parse_form_data(b"garbage", Some(b"boundary34")), Ok(f) if f.fields.is_empty()));
}

#[test]
fn urlencoded_groups_names_apart() {
    match decode(b"a=1&b=2&a=3", "application/x-www-form-urlencoded") {
        Ok(TypedBody::Form(fs)) => {
            assert_eq!(fs.len(), 2);
            assert!(matches!(&fs[0], HttpFormDataField::Array(n, vs) if n == "a" && vs == &vec!["1".to_string(), "3".to_string()]));
            assert!(matches!(&fs[1], HttpFormDataField::Value(n, v) if n == "b" && v == "2"));
        }
        other => panic!("unexpected {:?}", other),
    }
    let parsed = parse_form_data(b"field=someValue&array%5B%5D=1&array%5B%5D=2", None).unwrap();
    assert_eq!(parsed.fields.len(), 2);
    assert!(matches!(&parsed.fields[1], HttpFormDataField::Array(n, vs) if n == "array[]" && vs.len() == 2));
}

#[test]
fn encoding_groups_repeated_names() {
    let fields = vec![
        HttpFormDataField::Value("a".to_string(), "1".to_string()),
        HttpFormDataField::Value("b".to_string(), "2".to_string()),
        HttpFormDataField::Value("a".to_string(), "3".to_string()),
    ];
    let body = encode_form(&fields, 0, 0);
    assert_eq!(String::from_utf8(body.data).unwrap(), "a=1&a=3&b=2");
}

#[test]
fn json_number_with_too_many_digits_is_refused() {
    let mut text = b"0.".to_vec();
    text.extend(std::iter::repeat(b'0').take(40000));
    assert!(matches!(decode(&text, "application/json"), Err(CodecError::NumberTooLong)));
    let mut ok = b"0.".to_vec();
    ok.extend(std::iter::repeat(b'0').take(30000));
    assert!(matches!(decode(&ok, "application/json"), Ok(TypedBody::Json(Json::Number(_)))));
}

#[test]
fn large_json_bodies_decode() {
    let mut text = b"[".to_vec();
    for i in 0..20000 {
        if i > 0 {
            text.push(b',');
        }
        text.extend_from_slice(format!("{}", i).as_bytes());
    }
    text.push(b']');
    assert!(text.len() > 100000);
    match decode(&text, "application/json") {
        Ok(TypedBody::Json(Json::Array(items))) => assert_eq!(items.len(), 20000),
        other => panic!("unexpected {:?}", other.is_ok()),
    }
    let mut other = text.clone();
    let n = other.len();
    other[n - 2] = b'8';
    let spaced = String::from_utf8(text.clone()).unwrap().replace(",", ", ").into_bytes();
    assert!(noir::validate::validate_http_body(&text, "application/json", &spaced, "application/json", false, 10).is_none());
    assert!(noir::validate::validate_http_body(&text, "application/json", &other, "application/json", false, 10).is_some());
}
