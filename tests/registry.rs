use noir::mock::{
    fetched_out_of_order, respond, FailureKind, HttpBody, HttpRequest, HttpResponse, IoFailure,
    MockResponseProvider, ResponseProvider,
};
use noir::options::Options;
use noir::report::{combine, validate_requests, Failure, MockFailure};
use noir::stream::MockStream;

fn canned(method: &str, path: &str) -> HttpResponse {
    HttpResponse {
        hostname: "localhost".to_string(),
        port: 4000,
        method: method.to_string(),
        path: path.to_string(),
        status: None,
        headers: vec![],
        body: None,
        error: None,
        expected_headers: vec![],
        unexpected_headers: vec![],
        expected_body: None,
        expected_exact_body: false,
        dump_request: false,
        options: Options::default(),
    }
}

fn captured(method: &str, path: &str) -> HttpRequest {
    HttpRequest {
        hostname: "localhost".to_string(),
        port: 4000,
        method: method.to_string(),
        path: path.to_string(),
        headers: vec![],
        body: vec![],
    }
}

#[test]
fn options_defaults() {
    let o = Options::default();
    assert_eq!(o.json_compare_depth, 4096);
    assert_eq!(o.api_request_timeout, 1000);
    assert!(o.error_suppress_cascading);
}

#[test]
fn one_response_answers_once() {
    let mut p = ResponseProvider::new();
    p.provide(vec![canned("GET", "/one")]);
    let first = p.request(captured("GET", "/one"));
    assert!(matches!(first, Ok(Ok(_))));
    let second = p.request(captured("GET", "/one"));
    match second {
        Err(e) => assert_eq!(e.kind, FailureKind::ConnectionRefused),
        Ok(_) => panic!("a canned response answered twice"),
    }
    assert_eq!(p.additional.len(), 1);
}

#[test]
fn reverse_fetch_flags_both_responses() {
    let mut p = ResponseProvider::new();
    p.provide(vec![canned("GET", "/one"), canned("GET", "/two")]);
    assert!(p.request(captured("GET", "/two")).is_ok());
    assert!(p.request(captured("GET", "/one")).is_ok());
    assert!(fetched_out_of_order(&p.provided[0]));
    assert!(fetched_out_of_order(&p.provided[1]));
    let failures = validate_requests(&mut p);
    let flagged: Vec<(usize, usize)> = failures
        .iter()
        .filter_map(|f| match f {
            MockFailure::FetchedOutOfOrder { provision_index, fetch_index } => Some((*provision_index, *fetch_index)),
            _ => None,
        })
        .collect();
    assert_eq!(flagged, vec![(0, 1), (1, 0)]);
    assert_eq!(failures.len(), 2);
    assert!(p.provided.is_empty());
    assert_eq!(p.request_index, 0);
}

#[test]
fn in_order_fetch_is_clean() {
    let mut p = ResponseProvider::new();
    p.provide(vec![canned("GET", "/one"), canned("GET", "/two")]);
    assert!(p.request(captured("GET", "/one")).is_ok());
    assert!(p.request(captured("GET", "/two")).is_ok());
    assert!(validate_requests(&mut p).is_empty());
}

#[test]
fn identity_fields_must_all_match() {
    let mut p = ResponseProvider::new();
    p.provide(vec![canned("GET", "/one")]);
    assert!(p.request(captured("POST", "/one")).is_err());
    let mut other_port = captured("GET", "/one");
    other_port.port = 4001;
    assert!(p.request(other_port).is_err());
    let mut other_host = captured("GET", "/one");
    other_host.hostname = "example.com".to_string();
    assert!(p.request(other_host).is_err());
    assert!(p.request(captured("GET", "/one/")).is_err());
    assert!(p.request(captured("GET", "/one")).is_ok());
}

#[test]
fn never_fetched_response_is_reported() {
    let mut p = ResponseProvider::new();
    p.provide(vec![canned("GET", "/one")]);
    let failures = validate_requests(&mut p);
    assert_eq!(failures.len(), 1);
    assert!(matches!(failures[0], MockFailure::NotRequested { provision_index: 0 }));
}

#[test]
fn unanswered_request_is_reported() {
    let mut p = ResponseProvider::new();
    assert!(MockResponseProvider::response_from_request(&mut p, captured("GET", "/missing")).is_err());
    let failures = validate_requests(&mut p);
    assert_eq!(failures.len(), 1);
    assert!(matches!(&failures[0], MockFailure::NoResponseProvided { method, path, port: 4000, .. }
        if method == "GET" && path == "/missing"));
}

#[test]
fn provide_numbers_responses_in_order() {
    let mut p = ResponseProvider::new();
    p.provide(vec![canned("GET", "/a")]);
    p.provide(vec![canned("GET", "/b"), canned("GET", "/c")]);
    let indices: Vec<usize> = p.provided.iter().map(|s| s.provision_index).collect();
    assert_eq!(indices, vec![0, 1, 2]);
    assert_eq!(p.response_index, 3);
    let drained = p.provided_responses();
    assert_eq!(drained.len(), 3);
    assert!(p.provided.is_empty());
    p.reset();
    assert_eq!(p.response_index, 0);
}

#[test]
fn response_bytes_carry_status_headers_and_body() {
    let mut r = canned("GET", "/echo");
    r.status = Some(201);
    r.headers = vec![("X-Test".to_string(), "1".to_string())];
    r.body = Some(HttpBody { data: b"{\"key\":\"value\"}".to_vec(), content_type: "application/json".to_string() });
    let bytes = respond(&r).unwrap();
    let text = String::from_utf8(bytes).unwrap();
    assert_eq!(
        text,
        "HTTP/1.1 201 \r\nX-Test: 1\r\nContent-Type: application/json\r\nContent-Length: 15\r\n\r\n{\"key\":\"value\"}"
    );
}

#[test]
fn response_keeps_its_own_content_type() {
    let mut r = canned("GET", "/echo");
    r.headers = vec![("content-type".to_string(), "text/html".to_string())];
    r.body = Some(HttpBody { data: b"hi".to_vec(), content_type: "text/plain".to_string() });
    let text = String::from_utf8(respond(&r).unwrap()).unwrap();
    assert_eq!(text, "HTTP/1.1 200 \r\ncontent-type: text/html\r\nContent-Length: 2\r\n\r\nhi");
}

#[test]
fn synthetic_error_is_returned() {
    let mut r = canned("GET", "/fail");
    r.error = Some(IoFailure { kind: FailureKind::TimedOut, message: "late".to_string() });
    let mut p = ResponseProvider::new();
    p.provide(vec![r]);
    match p.request(captured("GET", "/fail")) {
        Ok(Err(e)) => {
            assert_eq!(e.kind, FailureKind::TimedOut);
            assert_eq!(e.message, "late");
        }
        _ => panic!("expected the synthetic failure"),
    }
}

#[test]
fn cascade_suppression() {
    let mut p = ResponseProvider::new();
    assert!(p.request(captured("GET", "/missing")).is_err());
    let mock = validate_requests(&mut p);
    let response = vec![Failure::StatusMismatch { expected: 200, actual: 500 }];
    let out = combine(response, mock, true);
    assert!(out.response.is_empty());
    assert_eq!(out.suppressed, 1);
    assert_eq!(out.mock.len(), 1);
    assert!(matches!(out.mock[0], MockFailure::NoResponseProvided { .. }));

    let mut p = ResponseProvider::new();
    assert!(p.request(captured("GET", "/missing")).is_err());
    let mock = validate_requests(&mut p);
    let response = vec![Failure::StatusMismatch { expected: 200, actual: 500 }];
    let out = combine(response, mock, false);
    assert_eq!(out.response.len(), 1);
    assert_eq!(out.mock.len(), 1);
    assert_eq!(out.suppressed, 0);
    assert!(!out.passed());
}

#[test]
fn no_mock_failures_keep_response_failures() {
    let response = vec![Failure::HeaderMissing("X".to_string())];
    let out = combine(response, vec![], true);
    assert_eq!(out.response.len(), 1);
    assert_eq!(out.suppressed, 0);
}

#[test]
fn stream_round_trip_through_registry() {
    let mut p = ResponseProvider::new();
    let mut r = canned("GET", "/echo");
    r.body = Some(HttpBody { data: b"ok".to_vec(), content_type: "text/plain".to_string() });
    p.provide(vec![r]);
    let mut s = MockStream::new("localhost", 4000);
    let wire = b"GET /echo HTTP/1.1\r\nHost: localhost\r\n\r\n";
    assert_eq!(s.write(wire), wire.len());
    assert!(s.flush(&mut p).is_ok());
    let first = s.read(9).unwrap();
    assert_eq!(first, b"HTTP/1.1 ".to_vec());
    let rest = s.read(1000).unwrap();
    let text = String::from_utf8(rest).unwrap();
    assert_eq!(text, "200 \r\nContent-Type: text/plain\r\nContent-Length: 2\r\n\r\nok");
    assert!(s.read(10).unwrap().is_empty());
    let q = p.provided[0].request.as_ref().unwrap();
    assert_eq!(q.headers, vec![("Host".to_string(), "localhost".to_string())]);
}

#[test]
fn stream_without_response_fails() {
    let mut p = ResponseProvider::new();
    let mut s = MockStream::new("localhost", 4000);
    s.write(b"POST /x HTTP/1.1\r\nContent-Length: 2\r\n\r\nhi");
    let e = s.flush(&mut p).unwrap_err();
    assert_eq!(e.kind, FailureKind::ConnectionRefused);
    assert_eq!(p.additional.len(), 1);
    assert_eq!(p.additional[0].body, b"hi".to_vec());
}

#[test]
fn stream_with_garbage_fails() {
    let mut p = ResponseProvider::new();
    let mut s = MockStream::new("localhost", 4000);
    s.write(b"\x00\x01 not http");
    let e = s.flush(&mut p).unwrap_err();
    assert_eq!(e.kind, FailureKind::Other);
    assert_eq!(p.request_index, 0);
}

#[test]
fn captured_request_is_validated_against_expectations() {
    let mut r = canned("POST", "/submit");
    r.expected_headers = vec![("X-Key".to_string(), "abc".to_string())];
    r.unexpected_headers = vec!["X-Forbidden".to_string()];
    r.expected_body = Some(HttpBody { data: b"hello".to_vec(), content_type: "text/plain".to_string() });
    let mut p = ResponseProvider::new();
    p.provide(vec![r]);
    let mut q = captured("POST", "/submit");
    q.headers = vec![
        ("x-key".to_string(), "abd".to_string()),
        ("X-Forbidden".to_string(), "1".to_string()),
        ("Content-Type".to_string(), "text/plain".to_string()),
    ];
    q.body = b"hallo".to_vec();
    assert!(p.request(q).is_ok());
    let failures = validate_requests(&mut p);
    assert_eq!(failures.len(), 3);
    assert!(matches!(&failures[0], MockFailure::RequestMismatch { failure: Failure::HeaderMismatch { name, expected, actual }, .. }
        if name == "X-Key" && expected == "abc" && actual == "abd"));
    assert!(matches!(&failures[1], MockFailure::RequestMismatch { failure: Failure::HeaderPresent(n), .. } if n == "X-Forbidden"));
    assert!(matches!(&failures[2], MockFailure::RequestMismatch { failure: Failure::Body(_), .. }));
}

#[test]
fn endpoint_urls() {
    assert_eq!(canned("GET", "/").url(), "http://localhost:4000");
    let mut r = canned("GET", "/");
    r.port = 443;
    assert_eq!(r.url(), "https://localhost");
    r.port = 80;
    assert_eq!(r.url(), "http://localhost");
}
