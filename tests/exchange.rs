use noir::api::{http_request, ActualResponse, Exchange};
use noir::query::{path_with_query, HttpQueryString, HttpQueryStringItem};
use noir::codec::{encode, TypedBody};
use noir::mock::{http_response, respond, HttpBody, ResponseProvider};
use noir::report::{Failure, MockFailure};
use noir::stream::MockStream;
use noir::tree::{Json, JsonNumber, JsonObject};

fn key_value(extra: bool) -> Json {
    let mut o = JsonObject::new();
    o.insert("key".to_string(), Json::String("value".to_string()));
    if extra {
        o.insert("extra".to_string(), Json::Number(JsonNumber::new(true, 1, 0)));
    }
    Json::Object(o)
}

fn json_body(extra: bool) -> HttpBody {
    encode(&TypedBody::Json(key_value(extra)))
}

/// Sends `GET /echo` through the mock transport the way a service that
/// forwards the canned answer would, and turns the answer into the
/// service's own response.
fn echo_exchange(provider: &mut ResponseProvider) -> Exchange {
    let mut s = MockStream::new("upstream", 80);
    s.write(b"GET /echo HTTP/1.1\r\nHost: upstream\r\n\r\n");
    if s.flush(provider).is_err() {
        return Exchange::Answered(ActualResponse { status: 502, headers: vec![], body: vec![] });
    }
    let raw = s.read(4096).unwrap();
    let split = raw.windows(4).position(|w| w == b"\r\n\r\n").unwrap() + 4;
    Exchange::Answered(ActualResponse {
        status: 200,
        headers: vec![("Content-Type".to_string(), "application/json".to_string())],
        body: raw[split..].to_vec(),
    })
}

#[test]
fn echo_scenario_passes() {
    let mut provider = ResponseProvider::new();
    let mut request = http_request("GET", "/echo")
        .expected_body(json_body(false))
        .provide(vec![http_response("upstream", 80, "GET", "/echo").with_body(json_body(false))]);
    request.start(&mut provider);
    let exchange = echo_exchange(&mut provider);
    let outcome = request.conclude(exchange, &mut provider);
    assert!(outcome.passed());
    assert_eq!(outcome.suppressed, 0);
}

#[test]
fn echo_scenario_with_extra_key() {
    let mut provider = ResponseProvider::new();
    let mut request = http_request("GET", "/echo")
        .expected_exact_body(json_body(false))
        .provide(vec![http_response("upstream", 80, "GET", "/echo").with_body(json_body(true))]);
    request.start(&mut provider);
    let exchange = echo_exchange(&mut provider);
    let outcome = request.conclude(exchange, &mut provider);
    assert!(outcome.mock.is_empty());
    assert_eq!(outcome.response.len(), 1);
    match &outcome.response[0] {
        Failure::Body(noir::validate::BodyFailure::Content(noir::validate::ContentFailure::JsonMismatch(records))) => {
            assert_eq!(records.len(), 1);
            assert!(records[0].path.is_empty());
            assert_eq!(records[0].message.text(), "Object has 1 additional unexpected key(s) (extra)");
        }
        other => panic!("unexpected failure {:?}", other),
    }
}

#[test]
fn missing_mock_suppresses_response_failures() {
    let mut provider = ResponseProvider::new();
    let mut request = http_request("GET", "/echo").expected_status(200);
    request.start(&mut provider);
    let exchange = echo_exchange(&mut provider);
    let outcome = request.conclude(exchange, &mut provider);
    assert!(outcome.response.is_empty());
    assert_eq!(outcome.suppressed, 1);
    assert_eq!(outcome.mock.len(), 1);
    assert!(matches!(&outcome.mock[0], MockFailure::NoResponseProvided { path, .. } if path == "/echo"));
    assert_eq!(provider.request_index, 0);
}

#[test]
fn missing_mock_shows_everything_when_not_suppressed() {
    let mut provider = ResponseProvider::new();
    let mut options = noir::options::Options::default();
    options.error_suppress_cascading = false;
    let mut request = http_request("GET", "/echo").expected_status(200).with_options(options);
    request.start(&mut provider);
    let exchange = echo_exchange(&mut provider);
    let outcome = request.conclude(exchange, &mut provider);
    assert_eq!(outcome.response.len(), 1);
    assert!(matches!(outcome.response[0], Failure::StatusMismatch { expected: 200, actual: 502 }));
    assert_eq!(outcome.mock.len(), 1);
    assert_eq!(outcome.suppressed, 0);
}

#[test]
fn timeout_is_one_failure() {
    let mut provider = ResponseProvider::new();
    let mut request = http_request("GET", "/slow")
        .provide(vec![http_response("upstream", 80, "GET", "/never")]);
    request.start(&mut provider);
    let outcome = request.conclude(Exchange::TimedOut, &mut provider);
    assert_eq!(outcome.response.len(), 1);
    assert!(matches!(outcome.response[0], Failure::RequestTimeout));
    assert!(outcome.mock.is_empty());
    assert!(provider.provided.is_empty());
    let outcome = http_request("GET", "/x").conclude(Exchange::NotStarted, &mut provider);
    assert!(matches!(outcome.response[0], Failure::StartTimeout));
}

#[test]
fn response_headers_and_status_are_validated() {
    let mut provider = ResponseProvider::new();
    let request = http_request("GET", "/h")
        .expected_status(201)
        .expected_header("X-A".to_string(), "1".to_string())
        .expected_headers(vec![("X-B".to_string(), "2".to_string())])
        .unexpected_header("X-C".to_string());
    let actual = ActualResponse {
        status: 200,
        headers: vec![("x-a".to_string(), "1".to_string()), ("X-C".to_string(), "3".to_string())],
        body: vec![],
    };
    let outcome = request.conclude(Exchange::Answered(actual), &mut provider);
    assert_eq!(outcome.response.len(), 3);
    assert!(matches!(outcome.response[0], Failure::StatusMismatch { expected: 201, actual: 200 }));
    assert!(matches!(&outcome.response[1], Failure::HeaderMissing(n) if n == "X-B"));
    assert!(matches!(&outcome.response[2], Failure::HeaderPresent(n) if n == "X-C"));
}

#[test]
fn canned_response_builders() {
    let r = http_response("h", 1, "PUT", "/p")
        .with_status(404)
        .with_header("A".to_string(), "b".to_string())
        .with_headers(vec![("C".to_string(), "d".to_string())])
        .with_body(HttpBody { data: b"x".to_vec(), content_type: "text/plain".to_string() })
        .unexpected_header("E".to_string())
        .dump();
    assert_eq!(r.status, Some(404));
    assert_eq!(r.headers.len(), 2);
    assert!(r.dump_request);
    let text = String::from_utf8(respond(&r).unwrap()).unwrap();
    assert_eq!(text, "HTTP/1.1 404 \r\nA: b\r\nC: d\r\nContent-Type: text/plain\r\nContent-Length: 1\r\n\r\nx");
}

#[test]
fn headers_are_checked_in_name_order() {
    let mut provider = ResponseProvider::new();
    let request = http_request("GET", "/h")
        .expected_header("Zeta".to_string(), "1".to_string())
        .expected_header("Alpha".to_string(), "1".to_string())
        .unexpected_header("Y-Two".to_string())
        .unexpected_header("X-One".to_string());
    let actual = ActualResponse {
        status: 200,
        headers: vec![("X-One".to_string(), "1".to_string()), ("Y-Two".to_string(), "1".to_string())],
        body: vec![],
    };
    let outcome = request.conclude(Exchange::Answered(actual), &mut provider);
    let names: Vec<String> = outcome
        .response
        .iter()
        .map(|f| match f {
            Failure::HeaderMissing(n) => format!("missing {}", n),
            Failure::HeaderPresent(n) => format!("present {}", n),
            other => format!("{:?}", other),
        })
        .collect();
    assert_eq!(names, vec!["missing Alpha", "missing Zeta", "present X-One", "present Y-Two"]);
}

fn full_query() -> HttpQueryString {
    HttpQueryString::new(vec![
        HttpQueryStringItem::Value("key".to_string(), "value".to_string()),
        HttpQueryStringItem::Array("array[]".to_string(), vec!["item1".to_string(), "item2".to_string(), "item3".to_string()]),
        HttpQueryStringItem::Value("foo".to_string(), "bar".to_string()),
        HttpQueryStringItem::Array("single".to_string(), vec!["item".to_string()]),
    ])
}

const FULL: &str = "/query?key=value&array%5B%5D=item1&array%5B%5D=item2&array%5B%5D=item3&foo=bar&single=item";

#[test]
fn test_with_query_set() {
    assert_eq!(http_request("GET", "/query").with_query(full_query()).path, FULL);
}

#[test]
fn test_with_query_set_empty() {
    let empty = HttpQueryString::new(vec![]);
    assert_eq!(http_request("GET", "/query").with_query(empty).path, "/query");
}

#[test]
fn test_with_query_replace_existing() {
    assert_eq!(http_request("GET", "/query?existing=querystring").with_query(full_query()).path, FULL);
}

#[test]
fn test_with_query_replace_existing_with_empty() {
    let empty = HttpQueryString::new(vec![]);
    assert_eq!(http_request("GET", "/query?existing=querystring").with_query(empty).path, "/query");
}

#[test]
fn test_with_query_none_string_types() {
    let q = HttpQueryString::new(vec![
        HttpQueryStringItem::Value("key".to_string(), 2.to_string()),
        HttpQueryStringItem::Array("array[]".to_string(), vec!["item1".to_string(), "item2".to_string(), "item3".to_string()]),
        HttpQueryStringItem::Value("foo".to_string(), 54.2.to_string()),
        HttpQueryStringItem::Value("single".to_string(), true.to_string()),
    ]);
    assert_eq!(
        http_request("GET", "/query").with_query(q).path,
        "/query?key=2&array%5B%5D=item1&array%5B%5D=item2&array%5B%5D=item3&foo=54.2&single=true"
    );
}

#[test]
fn path_with_query_drops_fragment_and_keeps_unicode() {
    let q = HttpQueryString::new(vec![HttpQueryStringItem::Value("a".to_string(), "b".to_string())]);
    assert_eq!(path_with_query("/päth#frag?x=1", &q), "/päth?a=b");
    let r = http_response("h", 80, "GET", "/x?old=1").with_query(q);
    assert_eq!(r.path, "/x?a=b");
}
