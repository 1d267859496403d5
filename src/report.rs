//! The outcome of a test request: failures of the response the service
//! under test gave, failures on the mocked side, and the rule that drops
//! the former where the latter likely caused them.
use vstd::prelude::*;
use crate::mock::{
    fetched, first_answer, same_endpoint, slots, HttpBody, HttpRequest, HttpResponse,
    ProvidedResponse, ResponseProvider,
};
use crate::codec::{decode, decoded, result_view, BodyView, TypedBody};
use crate::form::CodecError;
use crate::validate::{body_check, validate_http_body, BodyFailure, BodyFailureView};
use crate::wire::headers_view;
use crate::wire::{find_header, header_position};
use crate::tree::{bytes_lt, key_bytes, key_less};

verus! {

/// One expectation on a response or request that was not met.
#[derive(Debug)]
pub enum Failure {
    StatusMismatch { expected: u16, actual: u16 },
    HeaderMismatch { name: String, expected: String, actual: String },
    /// An expected header is absent.
    HeaderMissing(String),
    /// A header expected to be absent is present.
    HeaderPresent(String),
    Body(BodyFailure),
    /// The service under test did not become reachable in time.
    StartTimeout,
    /// The service under test did not answer in time.
    RequestTimeout,
    /// The response as it came, asked for by the test: its headers and
    /// what its body reads as.
    Dump { headers: Vec<(String, String)>, body: Result<TypedBody, CodecError> },
}

pub ghost enum FailureView {
    StatusMismatch { expected: u16, actual: u16 },
    HeaderMismatch { name: Seq<char>, expected: Seq<char>, actual: Seq<char> },
    HeaderMissing(Seq<char>),
    HeaderPresent(Seq<char>),
    Body(BodyFailureView),
    StartTimeout,
    RequestTimeout,
    Dump { headers: Seq<(Seq<char>, Seq<char>)>, body: Result<BodyView, CodecError> },
}

impl View for Failure {
    type V = FailureView;

    open spec fn view(&self) -> FailureView {
        match self {
            Failure::StatusMismatch { expected, actual } => FailureView::StatusMismatch {
                expected: *expected,
                actual: *actual,
            },
            Failure::HeaderMismatch { name, expected, actual } => FailureView::HeaderMismatch {
                name: name@,
                expected: expected@,
                actual: actual@,
            },
            Failure::HeaderMissing(n) => FailureView::HeaderMissing(n@),
            Failure::HeaderPresent(n) => FailureView::HeaderPresent(n@),
            Failure::Body(b) => FailureView::Body(b@),
            Failure::StartTimeout => FailureView::StartTimeout,
            Failure::RequestTimeout => FailureView::RequestTimeout,
            Failure::Dump { headers, body } => FailureView::Dump {
                headers: headers_view(headers@),
                body: result_view(*body),
            },
        }
    }
}

pub open spec fn failures_view(v: Seq<Failure>) -> Seq<FailureView> {
    v.map_values(|f: Failure| f@)
}

/// The failures of the first `n` expected headers: each absent from
/// `actual`, or present with another value.
pub open spec fn expected_header_failures(
    expected: Seq<(String, String)>,
    actual: Seq<(String, String)>,
    n: nat,
) -> Seq<FailureView>
    decreases n,
{
    if n == 0 || n > expected.len() {
        seq![]
    } else {
        let (name, value) = expected[n - 1];
        expected_header_failures(expected, actual, (n - 1) as nat) + match header_position(
            actual,
            name@,
            0,
        ) {
            Some(j) => if j < actual.len() && actual[j as int].1@ != value@ {
                seq![
                    FailureView::HeaderMismatch {
                        name: name@,
                        expected: value@,
                        actual: actual[j as int].1@,
                    },
                ]
            } else {
                seq![]
            },
            None => seq![FailureView::HeaderMissing(name@)],
        }
    }
}

/// The failures of the first `n` headers expected to be absent.
pub open spec fn unexpected_header_failures(
    unexpected: Seq<String>,
    actual: Seq<(String, String)>,
    n: nat,
) -> Seq<FailureView>
    decreases n,
{
    if n == 0 || n > unexpected.len() {
        seq![]
    } else {
        unexpected_header_failures(unexpected, actual, (n - 1) as nat) + if header_position(
            actual,
            unexpected[n - 1]@,
            0,
        ) is Some {
            seq![FailureView::HeaderPresent(unexpected[n - 1]@)]
        } else {
            seq![]
        }
    }
}

/// The failures of a response or request against its expectations: the
/// status, where both are known, then the expected headers in order of
/// their names, the names expected to be absent in sorted order, and the body where one is expected.
pub open spec fn resource_failures(
    expected_status: Option<u16>,
    actual_status: Option<u16>,
    expected_headers: Seq<(String, String)>,
    unexpected_headers: Seq<String>,
    expected_body: Option<HttpBody>,
    actual_headers: Seq<(String, String)>,
    actual_body: Seq<u8>,
    actual_type: Seq<char>,
    exact: bool,
    depth: nat,
) -> Seq<FailureView> {
    (match (expected_status, actual_status) {
        (Some(e), Some(a)) => if e != a {
            seq![FailureView::StatusMismatch { expected: e, actual: a }]
        } else {
            seq![]
        },
        _ => seq![],
    }) + expected_header_failures(sort_pairs(expected_headers), actual_headers, expected_headers.len())
        + unexpected_header_failures(
        sort_names(unexpected_headers),
        actual_headers,
        unexpected_headers.len(),
    )
        + match expected_body {
        Some(b) => match body_check(
            b.data@,
            b.content_type@,
            actual_body,
            actual_type,
            exact,
            depth,
        ) {
            Some(f) => seq![FailureView::Body(f)],
            None => seq![],
        },
        None => seq![],
    }
}

fn push_failure(out: &mut Vec<Failure>, f: Failure)
    ensures
        failures_view(final(out)@) == failures_view(old(out)@).push(f@),
{
    let ghost fv = f@;
    out.push(f);
    assert(failures_view(final(out)@) =~= failures_view(old(out)@).push(fv));
}

fn check_headers_in_order(
    out: &mut Vec<Failure>,
    expected_headers: &Vec<(String, String)>,
    unexpected_headers: &Vec<String>,
    actual_headers: &Vec<(String, String)>,
)
    ensures
        failures_view(final(out)@) == failures_view(old(out)@) + expected_header_failures(
            expected_headers@,
            actual_headers@,
            expected_headers@.len(),
        ) + unexpected_header_failures(unexpected_headers@, actual_headers@, unexpected_headers@.len()),
{
    let ghost head = failures_view(out@);
    let mut i: usize = 0;
    assert(head =~= head + expected_header_failures(expected_headers@, actual_headers@, 0));
    while i < expected_headers.len()
        invariant
            i <= expected_headers@.len(),
            failures_view(out@) == head + expected_header_failures(
                expected_headers@,
                actual_headers@,
                i as nat,
            ),
        decreases expected_headers.len() - i,
    {
        let name = &expected_headers[i].0;
        let value = &expected_headers[i].1;
        match find_header(actual_headers, name.as_str()) {
            Some(j) => {
                if actual_headers[j].1 != *value {
                    push_failure(
                        out,
                        Failure::HeaderMismatch {
                            name: name.clone(),
                            expected: value.clone(),
                            actual: actual_headers[j].1.clone(),
                        },
                    );
                }
            },
            None => {
                push_failure(out, Failure::HeaderMissing(name.clone()));
            },
        }
        assert(failures_view(out@) =~= head + expected_header_failures(
            expected_headers@,
            actual_headers@,
            (i + 1) as nat,
        ));
        i = i + 1;
    }
    let ghost head2 = failures_view(out@);
    let mut k: usize = 0;
    assert(head2 =~= head2 + unexpected_header_failures(unexpected_headers@, actual_headers@, 0));
    while k < unexpected_headers.len()
        invariant
            k <= unexpected_headers@.len(),
            failures_view(out@) == head2 + unexpected_header_failures(
                unexpected_headers@,
                actual_headers@,
                k as nat,
            ),
        decreases unexpected_headers.len() - k,
    {
        if find_header(actual_headers, unexpected_headers[k].as_str()).is_some() {
            push_failure(out, Failure::HeaderPresent(unexpected_headers[k].clone()));
        }
        assert(failures_view(out@) =~= head2 + unexpected_header_failures(
            unexpected_headers@,
            actual_headers@,
            (k + 1) as nat,
        ));
        k = k + 1;
    }
    assert(failures_view(out@) =~= failures_view(old(out)@) + expected_header_failures(
        expected_headers@,
        actual_headers@,
        expected_headers@.len(),
    ) + unexpected_header_failures(unexpected_headers@, actual_headers@, unexpected_headers@.len()));
}

/// Whether header name `a` orders before `b`, by their UTF-8 bytes.
pub open spec fn name_before(a: Seq<char>, b: Seq<char>) -> bool {
    bytes_lt(key_bytes(a), key_bytes(b))
}

/// Where header `h` goes among sorted headers, from `i` on: after every
/// header whose name does not order after its own.
pub open spec fn pair_pos(s: Seq<(String, String)>, h: (String, String), i: nat) -> nat
    decreases s.len() - i,
{
    if i >= s.len() {
        s.len()
    } else if name_before(h.0@, s[i as int].0@) {
        i
    } else {
        pair_pos(s, h, i + 1)
    }
}

/// Headers sorted by name; headers of one name keep their order.
pub open spec fn sort_pairs(hs: Seq<(String, String)>) -> Seq<(String, String)>
    decreases hs.len(),
{
    if hs.len() == 0 {
        seq![]
    } else {
        let t = sort_pairs(hs.drop_last());
        t.insert(pair_pos(t, hs.last(), 0) as int, hs.last())
    }
}

/// Where name `n` goes among sorted names, from `i` on.
pub open spec fn name_pos(s: Seq<String>, n: String, i: nat) -> nat
    decreases s.len() - i,
{
    if i >= s.len() {
        s.len()
    } else if name_before(n@, s[i as int]@) {
        i
    } else {
        name_pos(s, n, i + 1)
    }
}

/// Names sorted; equal names keep their order.
pub open spec fn sort_names(ns: Seq<String>) -> Seq<String>
    decreases ns.len(),
{
    if ns.len() == 0 {
        seq![]
    } else {
        let t = sort_names(ns.drop_last());
        t.insert(name_pos(t, ns.last(), 0) as int, ns.last())
    }
}

fn sorted_pairs(hs: &Vec<(String, String)>) -> (r: Vec<(String, String)>)
    ensures
        r@ == sort_pairs(hs@),
{
    let mut out: Vec<(String, String)> = Vec::new();
    let mut i: usize = 0;
    assert(hs@.take(0) =~= seq![]);
    while i < hs.len()
        invariant
            i <= hs@.len(),
            out@ == sort_pairs(hs@.take(i as int)),
        decreases hs.len() - i,
    {
        let h = (hs[i].0.clone(), hs[i].1.clone());
        let ghost t = out@;
        let mut p: usize = 0;
        while p < out.len() && !key_less(&h.0, &out[p].0)
            invariant
                p <= out@.len(),
                t == out@,
                pair_pos(t, h, 0) == pair_pos(t, h, p as nat),
            decreases out.len() - p,
        {
            p = p + 1;
        }
        out.insert(p, h);
        proof {
            assert(hs@.take(i + 1).drop_last() =~= hs@.take(i as int));
            assert(hs@.take(i + 1).last() == h);
        }
        i = i + 1;
    }
    assert(hs@.take(i as int) =~= hs@);
    out
}

fn sorted_names(ns: &Vec<String>) -> (r: Vec<String>)
    ensures
        r@ == sort_names(ns@),
{
    let mut out: Vec<String> = Vec::new();
    let mut i: usize = 0;
    assert(ns@.take(0) =~= seq![]);
    while i < ns.len()
        invariant
            i <= ns@.len(),
            out@ == sort_names(ns@.take(i as int)),
        decreases ns.len() - i,
    {
        let n = ns[i].clone();
        let ghost t = out@;
        let mut p: usize = 0;
        while p < out.len() && !key_less(&n, &out[p])
            invariant
                p <= out@.len(),
                t == out@,
                name_pos(t, n, 0) == name_pos(t, n, p as nat),
            decreases out.len() - p,
        {
            p = p + 1;
        }
        out.insert(p, n);
        proof {
            assert(ns@.take(i + 1).drop_last() =~= ns@.take(i as int));
            assert(ns@.take(i + 1).last() == n);
        }
        i = i + 1;
    }
    assert(ns@.take(i as int) =~= ns@);
    out
}

/// Checks the headers: each expected one, in order of their names, present
/// with its value; then each name expected to be absent, in sorted order.
pub fn validate_http_headers(
    out: &mut Vec<Failure>,
    expected_headers: &Vec<(String, String)>,
    unexpected_headers: &Vec<String>,
    actual_headers: &Vec<(String, String)>,
)
    ensures
        failures_view(final(out)@) == failures_view(old(out)@) + expected_header_failures(
            sort_pairs(expected_headers@),
            actual_headers@,
            expected_headers@.len(),
        ) + unexpected_header_failures(
            sort_names(unexpected_headers@),
            actual_headers@,
            unexpected_headers@.len(),
        ),
{
    let eh = sorted_pairs(expected_headers);
    let uh = sorted_names(unexpected_headers);
    proof {
        lemma_sort_pairs_len(expected_headers@);
        lemma_sort_names_len(unexpected_headers@);
    }
    check_headers_in_order(out, &eh, &uh, actual_headers);
}

proof fn lemma_sort_pairs_len(hs: Seq<(String, String)>)
    ensures
        sort_pairs(hs).len() == hs.len(),
    decreases hs.len(),
{
    if hs.len() > 0 {
        lemma_sort_pairs_len(hs.drop_last());
        lemma_pair_pos_bound(sort_pairs(hs.drop_last()), hs.last(), 0);
    }
}

proof fn lemma_pair_pos_bound(s: Seq<(String, String)>, h: (String, String), i: nat)
    requires
        i <= s.len(),
    ensures
        pair_pos(s, h, i) <= s.len(),
    decreases s.len() - i,
{
    if i < s.len() {
        lemma_pair_pos_bound(s, h, i + 1);
    }
}

proof fn lemma_sort_names_len(ns: Seq<String>)
    ensures
        sort_names(ns).len() == ns.len(),
    decreases ns.len(),
{
    if ns.len() > 0 {
        lemma_sort_names_len(ns.drop_last());
        lemma_name_pos_bound(sort_names(ns.drop_last()), ns.last(), 0);
    }
}

proof fn lemma_name_pos_bound(s: Seq<String>, n: String, i: nat)
    requires
        i <= s.len(),
    ensures
        name_pos(s, n, i) <= s.len(),
    decreases s.len() - i,
{
    if i < s.len() {
        lemma_name_pos_bound(s, n, i + 1);
    }
}

/// Validates a response or request against its expectations.
pub fn validate_http_resource(
    expected_status: Option<u16>,
    actual_status: Option<u16>,
    expected_headers: &Vec<(String, String)>,
    unexpected_headers: &Vec<String>,
    expected_body: &Option<HttpBody>,
    actual_headers: &Vec<(String, String)>,
    actual_body: &Vec<u8>,
    actual_type: &str,
    exact: bool,
    depth: usize,
) -> (r: Vec<Failure>)
    ensures
        failures_view(r@) == resource_failures(
            expected_status,
            actual_status,
            expected_headers@,
            unexpected_headers@,
            *expected_body,
            actual_headers@,
            actual_body@,
            actual_type@,
            exact,
            depth as nat,
        ),
{
    let mut out: Vec<Failure> = Vec::new();
    assert(failures_view(out@) =~= seq![]);
    match (expected_status, actual_status) {
        (Some(e), Some(a)) => {
            if e != a {
                push_failure(&mut out, Failure::StatusMismatch { expected: e, actual: a });
            }
        },
        _ => {},
    }
    validate_http_headers(&mut out, expected_headers, unexpected_headers, actual_headers);
    match expected_body {
        Some(b) => {
            match validate_http_body(&b.data, b.content_type.as_str(), actual_body, actual_type, exact, depth) {
                Some(f) => push_failure(&mut out, Failure::Body(f)),
                None => {},
            }
        },
        None => {},
    }
    assert(failures_view(out@) =~= resource_failures(
        expected_status,
        actual_status,
        expected_headers@,
        unexpected_headers@,
        *expected_body,
        actual_headers@,
        actual_body@,
        actual_type@,
        exact,
        depth as nat,
    ));
    out
}

// ---------------------------------------------------------------------------
// The mocked side

/// One failure on the mocked side of a test request.
#[derive(Debug)]
pub enum MockFailure {
    /// A provided response that no request fetched.
    NotRequested { provision_index: usize },
    /// A response fetched by another request than the one of its position.
    FetchedOutOfOrder { provision_index: usize, fetch_index: usize },
    /// The request that fetched a response missed an expectation.
    RequestMismatch { provision_index: usize, failure: Failure },
    /// A request for which no response was provided.
    NoResponseProvided { method: String, hostname: String, port: u16, path: String },
    /// The request that fetched a response, asked for by the test: its
    /// headers and what its body reads as.
    RequestDump {
        provision_index: usize,
        headers: Vec<(String, String)>,
        body: Result<TypedBody, CodecError>,
    },
}

pub ghost enum MockFailureView {
    NotRequested { provision_index: nat },
    FetchedOutOfOrder { provision_index: nat, fetch_index: nat },
    RequestMismatch { provision_index: nat, failure: FailureView },
    NoResponseProvided { method: Seq<char>, hostname: Seq<char>, port: u16, path: Seq<char> },
    RequestDump {
        provision_index: nat,
        headers: Seq<(Seq<char>, Seq<char>)>,
        body: Result<BodyView, CodecError>,
    },
}

impl View for MockFailure {
    type V = MockFailureView;

    open spec fn view(&self) -> MockFailureView {
        match self {
            MockFailure::NotRequested { provision_index } => MockFailureView::NotRequested {
                provision_index: *provision_index as nat,
            },
            MockFailure::FetchedOutOfOrder { provision_index, fetch_index } =>
                MockFailureView::FetchedOutOfOrder {
                provision_index: *provision_index as nat,
                fetch_index: *fetch_index as nat,
            },
            MockFailure::RequestMismatch { provision_index, failure } =>
                MockFailureView::RequestMismatch {
                provision_index: *provision_index as nat,
                failure: failure@,
            },
            MockFailure::NoResponseProvided { method, hostname, port, path } =>
                MockFailureView::NoResponseProvided {
                method: method@,
                hostname: hostname@,
                port: *port,
                path: path@,
            },
            MockFailure::RequestDump { provision_index, headers, body } =>
                MockFailureView::RequestDump {
                provision_index: *provision_index as nat,
                headers: headers_view(headers@),
                body: result_view(*body),
            },
        }
    }
}

pub open spec fn mock_failures_view(v: Seq<MockFailure>) -> Seq<MockFailureView> {
    v.map_values(|f: MockFailure| f@)
}

/// The media type of a captured request's body: its Content-Type, else
/// `application/octet-stream`.
pub open spec fn request_type(q: HttpRequest) -> Seq<char> {
    match header_position(q.headers@, "Content-Type"@, 0) {
        Some(j) => q.headers@[j as int].1@,
        None => "application/octet-stream"@,
    }
}

/// The failures of one provided response: never fetched; or the dump of
/// the request that fetched it where the test asks for one, fetched out of
/// order, then what that request missed.
pub open spec fn slot_failures(p: ProvidedResponse) -> Seq<MockFailureView> {
    match p.request {
        None => seq![MockFailureView::NotRequested { provision_index: p.provision_index as nat }],
        Some(q) => (if p.response.dump_request {
            seq![
                MockFailureView::RequestDump {
                    provision_index: p.provision_index as nat,
                    headers: headers_view(q.headers@),
                    body: decoded(q.body@, request_type(q)),
                },
            ]
        } else {
            seq![]
        }) + (if p.provision_index != p.fetch_index {
            seq![
                MockFailureView::FetchedOutOfOrder {
                    provision_index: p.provision_index as nat,
                    fetch_index: p.fetch_index as nat,
                },
            ]
        } else {
            seq![]
        }) + resource_failures(
            None,
            None,
            p.response.expected_headers@,
            p.response.unexpected_headers@,
            p.response.expected_body,
            q.headers@,
            q.body@,
            request_type(q),
            p.response.expected_exact_body,
            p.response.options.json_compare_depth as nat,
        ).map_values(
            |f: FailureView|
                MockFailureView::RequestMismatch { provision_index: p.provision_index as nat, failure: f },
        ),
    }
}

/// The failures of the first `n` provided responses, in provision order.
pub open spec fn slots_failures(slots: Seq<ProvidedResponse>, n: nat) -> Seq<MockFailureView>
    decreases n,
{
    if n == 0 || n > slots.len() {
        seq![]
    } else {
        slots_failures(slots, (n - 1) as nat) + slot_failures(slots[n - 1])
    }
}

/// The failure of a request that found no response.
pub open spec fn unanswered(q: HttpRequest) -> MockFailureView {
    MockFailureView::NoResponseProvided {
        method: q.method@,
        hostname: q.hostname@,
        port: q.port,
        path: q.path@,
    }
}

/// All failures on the mocked side: those of the provided responses, then
/// one per request that found no response.
pub open spec fn mock_failures(slots: Seq<ProvidedResponse>, additional: Seq<HttpRequest>) -> Seq<
    MockFailureView,
> {
    slots_failures(slots, slots.len()) + additional.map_values(|q: HttpRequest| unanswered(q))
}

fn validate_slot(out: &mut Vec<MockFailure>, p: &ProvidedResponse)
    ensures
        mock_failures_view(final(out)@) == mock_failures_view(old(out)@) + slot_failures(*p),
{
    let ghost start = mock_failures_view(out@);
    match &p.request {
        None => {
            let f = MockFailure::NotRequested { provision_index: p.provision_index };
            out.push(f);
            assert(mock_failures_view(out@) =~= start + slot_failures(*p));
        },
        Some(q) => {
            let ct = match find_header(&q.headers, "Content-Type") {
                Some(j) => q.headers[j].1.clone(),
                None => String::from_str("application/octet-stream"),
            };
            if p.response.dump_request {
                let f = MockFailure::RequestDump {
                    provision_index: p.provision_index,
                    headers: crate::mock::copy_headers(&q.headers),
                    body: decode(q.body.as_slice(), ct.as_str()),
                };
                let ghost fv = f@;
                out.push(f);
                assert(mock_failures_view(out@) =~= start.push(fv));
            }
            let ghost after_dump = mock_failures_view(out@);
            if p.provision_index != p.fetch_index {
                let f = MockFailure::FetchedOutOfOrder {
                    provision_index: p.provision_index,
                    fetch_index: p.fetch_index,
                };
                let ghost fv = f@;
                out.push(f);
                assert(mock_failures_view(out@) =~= after_dump.push(fv));
            }
            let ghost head = mock_failures_view(out@);
            let failures = validate_http_resource(
                None,
                None,
                &p.response.expected_headers,
                &p.response.unexpected_headers,
                &p.response.expected_body,
                &q.headers,
                &q.body,
                ct.as_str(),
                p.response.expected_exact_body,
                p.response.options.json_compare_depth,
            );
            let ghost fv = failures_view(failures@);
            let ghost mapped = fv.map_values(
                |f: FailureView|
                    MockFailureView::RequestMismatch {
                        provision_index: p.provision_index as nat,
                        failure: f,
                    },
            );
            let total = failures.len();
            let mut rest = failures;
            let mut i: usize = 0;
            while rest.len() > 0
                invariant
                    fv.len() == total,
                    mapped.len() == fv.len(),
                    forall|k: int|
                        0 <= k < fv.len() ==> #[trigger] mapped[k] == (MockFailureView::RequestMismatch {
                            provision_index: p.provision_index as nat,
                            failure: fv[k],
                        }),
                    i + rest@.len() == fv.len(),
                    failures_view(rest@) == fv.skip(i as int),
                    mock_failures_view(out@) == head + mapped.take(i as int),
                decreases rest.len(),
            {
                let ghost old_rest = rest@;
                let f = rest.remove(0);
                proof {
                    assert(failures_view(old_rest)[0] == f@);
                    assert(fv.skip(i as int)[0] == f@);
                    assert forall|k: int| 0 <= k < rest@.len() implies failures_view(rest@)[k]
                        == fv.skip(i + 1)[k] by {
                        assert(rest@[k] == old_rest[k + 1]);
                        assert(failures_view(old_rest)[k + 1] == fv.skip(i as int)[k + 1]);
                    }
                    assert(failures_view(rest@) =~= fv.skip(i + 1));
                }
                let ghost before = mock_failures_view(out@);
                let m = MockFailure::RequestMismatch { provision_index: p.provision_index, failure: f };
                let ghost mv = m@;
                out.push(m);
                proof {
                    assert(mock_failures_view(out@) =~= before.push(mv));
                    assert(i < fv.len());
                    assert(mapped[i as int] == mv);
                    assert(mapped.take(i + 1) =~= mapped.take(i as int).push(mapped[i as int]));
                }
                i = i + 1;
            }
            assert(mapped.take(i as int) =~= mapped);
            assert(mock_failures_view(out@) =~= start + slot_failures(*p));
        },
    }
}

/// Validates every provided response and every request that found none,
/// then resets the registry for the next test.
pub fn validate_requests(provider: &mut ResponseProvider) -> (r: Vec<MockFailure>)
    ensures
        mock_failures_view(r@) == mock_failures(old(provider).provided@, old(provider).additional@),
        final(provider).provided@.len() == 0,
        final(provider).additional@.len() == 0,
        final(provider).response_index == 0,
        final(provider).request_index == 0,
{
    let slots = provider.provided_responses();
    let additional = provider.additional_requests();
    provider.reset();
    let mut out: Vec<MockFailure> = Vec::new();
    let mut i: usize = 0;
    assert(mock_failures_view(out@) =~= slots_failures(slots@, 0));
    while i < slots.len()
        invariant
            i <= slots@.len(),
            mock_failures_view(out@) == slots_failures(slots@, i as nat),
        decreases slots.len() - i,
    {
        validate_slot(&mut out, &slots[i]);
        i = i + 1;
    }
    let ghost head = mock_failures_view(out@);
    let ghost tail = additional@.map_values(|q: HttpRequest| unanswered(q));
    let mut k: usize = 0;
    assert(tail.take(0) =~= seq![]);
    while k < additional.len()
        invariant
            k <= additional@.len(),
            tail == additional@.map_values(|q: HttpRequest| unanswered(q)),
            mock_failures_view(out@) == head + tail.take(k as int),
        decreases additional.len() - k,
    {
        let q = &additional[k];
        let f = MockFailure::NoResponseProvided {
            method: q.method.clone(),
            hostname: q.hostname.clone(),
            port: q.port,
            path: q.path.clone(),
        };
        let ghost before = mock_failures_view(out@);
        let ghost fv = f@;
        out.push(f);
        proof {
            assert(mock_failures_view(out@) =~= before.push(fv));
            assert(tail.take(k + 1) =~= tail.take(k as int).push(tail[k as int]));
        }
        k = k + 1;
    }
    assert(tail.take(k as int) =~= tail);
    out
}

/// A fetched response is reported as fetched out of order exactly when the
/// index of the request that fetched it differs from its provision index;
/// the report comes after the request's dump, if one was asked for, and
/// before what the request missed.
pub proof fn lemma_out_of_order_reported(p: ProvidedResponse)
    requires
        p.request is Some,
    ensures
        slot_failures(p).contains(
            MockFailureView::FetchedOutOfOrder {
                provision_index: p.provision_index as nat,
                fetch_index: p.fetch_index as nat,
            },
        ) <==> p.provision_index != p.fetch_index,
        p.provision_index != p.fetch_index ==> slot_failures(p)[if p.response.dump_request {
            1int
        } else {
            0int
        }] == (MockFailureView::FetchedOutOfOrder {
            provision_index: p.provision_index as nat,
            fetch_index: p.fetch_index as nat,
        }),
{
    let f = MockFailureView::FetchedOutOfOrder {
        provision_index: p.provision_index as nat,
        fetch_index: p.fetch_index as nat,
    };
    let k: int = if p.response.dump_request { 1 } else { 0 };
    if p.provision_index != p.fetch_index {
        assert(slot_failures(p)[k] == f);
    } else {
        assert forall|i: int| 0 <= i < slot_failures(p).len() implies slot_failures(p)[i] != f by {
            if i >= k {
                assert(slot_failures(p)[i] is RequestMismatch);
            }
        }
    }
}

/// Responses provided for `/one` and `/two` and fetched in the reverse
/// order: the failures on the mocked side are those of the two responses,
/// and each response's failures hold its out-of-order failure.
pub proof fn lemma_reverse_fetch_reports_both(
    one: HttpResponse,
    two: HttpResponse,
    to_one: HttpRequest,
    to_two: HttpRequest,
)
    requires
        same_endpoint(one, to_one),
        same_endpoint(two, to_two),
        one.path@ != two.path@,
    ensures
        ({
            let s0 = slots(seq![one, two], 0);
            let s1 = s0.update(1, fetched(s0[1], 0, to_two));
            let s2 = s1.update(0, fetched(s1[0], 1, to_one));
            &&& first_answer(s0, to_two, 0) == Some(1nat)
            &&& first_answer(s1, to_one, 0) == Some(0nat)
            &&& mock_failures(s2, seq![]) == slot_failures(s2[0]) + slot_failures(s2[1])
            &&& slot_failures(s2[0]).contains(
                MockFailureView::FetchedOutOfOrder { provision_index: 0, fetch_index: 1 },
            )
            &&& slot_failures(s2[1]).contains(
                MockFailureView::FetchedOutOfOrder { provision_index: 1, fetch_index: 0 },
            )
        }),
{
    crate::mock::lemma_reverse_fetch_flags_both(one, two, to_one, to_two);
    let s0 = slots(seq![one, two], 0);
    let s1 = s0.update(1, fetched(s0[1], 0, to_two));
    let s2 = s1.update(0, fetched(s1[0], 1, to_one));
    assert(slots_failures(s2, 0) =~= seq![]);
    assert(slots_failures(s2, 1) =~= slot_failures(s2[0]));
    assert(seq![].map_values(|q: HttpRequest| unanswered(q)) =~= Seq::<MockFailureView>::empty());
    assert(mock_failures(s2, seq![]) =~= slot_failures(s2[0]) + slot_failures(s2[1]));
    let k0: int = if s2[0].response.dump_request { 1 } else { 0 };
    assert(slot_failures(s2[0])[k0] == MockFailureView::FetchedOutOfOrder {
        provision_index: 0,
        fetch_index: 1,
    });
    let k1: int = if s2[1].response.dump_request { 1 } else { 0 };
    assert(slot_failures(s2[1])[k1] == MockFailureView::FetchedOutOfOrder {
        provision_index: 1,
        fetch_index: 0,
    });
}

// ---------------------------------------------------------------------------
// Cascade suppression

/// The failures a test request surfaces, and how many failures of its
/// response were dropped.
#[derive(Debug)]
pub struct Outcome {
    pub response: Vec<Failure>,
    pub mock: Vec<MockFailure>,
    pub suppressed: usize,
}

/// Joins the failures of the response with those of the mocked side.
/// Where the mocked side failed and `suppress_cascading` holds, the
/// response's failures are dropped and counted; otherwise both stand, the
/// response's first.
pub fn combine(response: Vec<Failure>, mock: Vec<MockFailure>, suppress_cascading: bool) -> (r: Outcome)
    ensures
        r.mock@ == mock@,
        suppress_cascading && mock@.len() > 0 ==> r.response@.len() == 0 && r.suppressed
            == response@.len(),
        !(suppress_cascading && mock@.len() > 0) ==> r.response@ == response@ && r.suppressed == 0,
{
    if suppress_cascading && mock.len() > 0 {
        let suppressed = response.len();
        Outcome { response: Vec::new(), mock, suppressed }
    } else {
        Outcome { response, mock, suppressed: 0 }
    }
}

impl Outcome {
    /// Whether the test request passed: nothing failed on either side.
    pub fn passed(&self) -> (r: bool)
        ensures
            r == (self.response@.len() == 0 && self.mock@.len() == 0),
    {
        self.response.len() == 0 && self.mock.len() == 0
    }
}

} // verus!
