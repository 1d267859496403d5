//! The registry of canned responses for the test that runs: it answers the
//! requests that the service under test sends out, each response at most
//! once, and records which request fetched which response.
use vstd::prelude::*;
use vstd::string::StringExecFns;
use crate::options::Options;
use crate::wire::{encode_response, find_header, header_position, headers_view, response_bytes};

verus! {

/// The kinds of I/O failure a canned response can stand for.
#[derive(Clone, Copy, Debug, PartialEq, Eq, Structural)]
pub enum FailureKind {
    ConnectionRefused,
    ConnectionReset,
    ConnectionAborted,
    NotConnected,
    TimedOut,
    Other,
}

/// A transport failure: its kind and its message.
#[derive(Debug)]
pub struct IoFailure {
    pub kind: FailureKind,
    pub message: String,
}

impl IoFailure {
    /// A copy of this failure.
    pub fn copy(&self) -> (r: IoFailure)
        ensures
            r.kind == self.kind,
            r.message@ == self.message@,
    {
        IoFailure { kind: self.kind, message: self.message.clone() }
    }
}

/// A body and the media type it is declared with.
#[derive(Debug)]
pub struct HttpBody {
    pub data: Vec<u8>,
    pub content_type: String,
}

/// A request that the service under test sent out, as it was captured.
#[derive(Debug)]
pub struct HttpRequest {
    pub hostname: String,
    pub port: u16,
    pub method: String,
    pub path: String,
    pub headers: Vec<(String, String)>,
    pub body: Vec<u8>,
}

/// A canned response for one endpoint, with what the request that fetches
/// it is expected to hold.
#[derive(Debug)]
pub struct HttpResponse {
    pub hostname: String,
    pub port: u16,
    pub method: String,
    pub path: String,
    /// The status to answer with; 200 when none is given.
    pub status: Option<u16>,
    pub headers: Vec<(String, String)>,
    pub body: Option<HttpBody>,
    /// A failure to answer with instead of a response.
    pub error: Option<IoFailure>,
    pub expected_headers: Vec<(String, String)>,
    pub unexpected_headers: Vec<String>,
    pub expected_body: Option<HttpBody>,
    pub expected_exact_body: bool,
    pub dump_request: bool,
    pub options: Options,
}

/// A provided response with its provision index, the index of the request
/// that fetched it, and that request once it came.
#[derive(Debug)]
pub struct ProvidedResponse {
    pub response: HttpResponse,
    pub provision_index: usize,
    pub fetch_index: usize,
    pub request: Option<HttpRequest>,
}

/// The canned responses of the test that runs, and the requests that found
/// none.
#[derive(Debug)]
pub struct ResponseProvider {
    pub response_index: usize,
    pub provided: Vec<ProvidedResponse>,
    pub request_index: usize,
    pub additional: Vec<HttpRequest>,
}

/// The interface through which the interceptor resolves captured requests.
pub struct MockResponseProvider;

/// Hooks of a custom mock, run around each test request.
pub trait MockProvider {
    /// Called before a test request is sent.
    fn setup(&mut self);

    /// Called after a test request has completed.
    fn teardown(&mut self);
}

/// Whether provided response `p` answers request `q`: it has not answered
/// one yet, and host, port, method and path are the same strings.
pub open spec fn answers(p: ProvidedResponse, q: HttpRequest) -> bool {
    &&& p.request is None
    &&& p.response.hostname@ == q.hostname@
    &&& p.response.port == q.port
    &&& p.response.method@ == q.method@
    &&& p.response.path@ == q.path@
}

/// The first provided response from `i` on that answers `q`.
pub open spec fn first_answer(s: Seq<ProvidedResponse>, q: HttpRequest, i: nat) -> Option<nat>
    decreases s.len() - i,
{
    if i >= s.len() {
        None
    } else if answers(s[i as int], q) {
        Some(i)
    } else {
        first_answer(s, q, i + 1)
    }
}

/// `p` after request `q`, the `index`th of the test, fetched it.
pub open spec fn fetched(p: ProvidedResponse, index: usize, q: HttpRequest) -> ProvidedResponse {
    ProvidedResponse {
        response: p.response,
        provision_index: p.provision_index,
        fetch_index: index,
        request: Some(q),
    }
}

/// The headers a canned response is served with: its own, and a
/// Content-Type from its body where it sets none.
pub open spec fn served_headers(r: HttpResponse) -> Seq<(Seq<char>, Seq<char>)> {
    match r.body {
        Some(b) => if header_position(r.headers@, "Content-Type"@, 0) is None {
            headers_view(r.headers@).push(("Content-Type"@, b.content_type@))
        } else {
            headers_view(r.headers@)
        },
        None => headers_view(r.headers@),
    }
}

/// The bytes a canned response is served as.
pub open spec fn served_bytes(r: HttpResponse) -> Seq<u8> {
    response_bytes(
        match r.status {
            Some(s) => s,
            None => 200,
        },
        served_headers(r),
        match r.body {
            Some(b) => b.data@,
            None => seq![],
        },
    )
}

/// What answering with canned response `r` gives: its failure, if it has
/// one, else its bytes.
pub open spec fn served(r: HttpResponse, out: Result<Vec<u8>, IoFailure>) -> bool {
    match r.error {
        Some(e) => out matches Err(f) && f.kind == e.kind && f.message@ == e.message@,
        None => out matches Ok(bytes) && bytes@ == served_bytes(r),
    }
}

pub fn copy_headers(h: &Vec<(String, String)>) -> (r: Vec<(String, String)>)
    ensures
        headers_view(r@) == headers_view(h@),
{
    let mut r: Vec<(String, String)> = Vec::new();
    let mut i: usize = 0;
    while i < h.len()
        invariant
            i <= h@.len(),
            headers_view(r@) == headers_view(h@.take(i as int)),
        decreases h.len() - i,
    {
        let pair = (h[i].0.clone(), h[i].1.clone());
        let ghost before = r@;
        r.push(pair);
        proof {
            assert(h@.take(i + 1) =~= h@.take(i as int).push(h@[i as int]));
            assert(headers_view(r@) =~= headers_view(before).push((pair.0@, pair.1@)));
            assert(headers_view(h@.take(i + 1)) =~= headers_view(h@.take(i as int)).push(
                (h@[i as int].0@, h@[i as int].1@),
            ));
        }
        i = i + 1;
    }
    assert(h@.take(h@.len() as int) =~= h@);
    r
}

pub fn copy_bytes(b: &Vec<u8>) -> (r: Vec<u8>)
    ensures
        r@ == b@,
{
    let mut r: Vec<u8> = Vec::new();
    let mut i: usize = 0;
    while i < b.len()
        invariant
            i <= b@.len(),
            r@ == b@.take(i as int),
        decreases b.len() - i,
    {
        r.push(b[i]);
        assert(b@.take(i + 1) =~= b@.take(i as int).push(b@[i as int]));
        i = i + 1;
    }
    assert(b@.take(b@.len() as int) =~= b@);
    r
}

/// Answers with canned response `r`: its failure, or its bytes.
pub fn respond(r: &HttpResponse) -> (out: Result<Vec<u8>, IoFailure>)
    ensures
        served(*r, out),
{
    match &r.error {
        Some(e) => Err(e.copy()),
        None => {
            let mut headers = copy_headers(&r.headers);
            let body = match &r.body {
                Some(b) => {
                    if find_header(&r.headers, "Content-Type").is_none() {
                        let ghost before = headers@;
                        let ct = String::from_str("Content-Type");
                        let pair = (ct, b.content_type.clone());
                        headers.push(pair);
                        assert(headers_view(headers@) =~= headers_view(before).push(
                            (pair.0@, pair.1@),
                        ));
                    }
                    copy_bytes(&b.data)
                },
                None => Vec::new(),
            };
            let status: u16 = match r.status {
                Some(s) => s,
                None => 200,
            };
            let bytes = encode_response(status, &headers, &body);
            proof {
                assert(body@ =~= match r.body {
                    Some(b) => b.data@,
                    None => seq![],
                });
            }
            Ok(bytes)
        },
    }
}

/// A canned response for `method` requests to `path` on `hostname:port`:
/// status 200, no headers, no body and no expectations.
pub fn http_response(hostname: &str, port: u16, method: &str, path: &str) -> (r: HttpResponse)
    ensures
        r.hostname@ == hostname@,
        r.port == port,
        r.method@ == method@,
        r.path@ == path@,
        r.status is None,
        r.headers@.len() == 0,
        r.body is None,
        r.error is None,
        r.expected_headers@.len() == 0,
        r.unexpected_headers@.len() == 0,
        r.expected_body is None,
        !r.expected_exact_body,
        !r.dump_request,
{
    HttpResponse {
        hostname: String::from_str(hostname),
        port,
        method: String::from_str(method),
        path: String::from_str(path),
        status: None,
        headers: Vec::new(),
        body: None,
        error: None,
        expected_headers: Vec::new(),
        unexpected_headers: Vec::new(),
        expected_body: None,
        expected_exact_body: false,
        dump_request: false,
        options: Options { json_compare_depth: 4096, api_request_timeout: 1000, error_suppress_cascading: true },
    }
}

/// The URL of an endpoint: `https` on port 443, else `http`; the port is
/// left out where it is the protocol's own.
pub open spec fn endpoint_url(hostname: Seq<char>, port: u16) -> Seq<char> {
    let protocol = if port == 443 {
        "https"@
    } else {
        "http"@
    };
    if port == 443 || port == 80 {
        protocol + "://"@ + hostname
    } else {
        protocol + "://"@ + hostname + ":"@ + crate::codec::digits_text(port as nat)
    }
}

impl HttpResponse {
    /// The URL of the endpoint this response is for.
    pub fn url(&self) -> (r: String)
        ensures
            r@ == endpoint_url(self.hostname@, self.port),
    {
        let mut s = if self.port == 443 {
            String::from_str("https")
        } else {
            String::from_str("http")
        };
        s.append("://");
        s.append(self.hostname.as_str());
        if self.port != 443 && self.port != 80 {
            s.append(":");
            crate::codec::append_digits(&mut s, self.port as u64);
        }
        s
    }

    /// Replaces the path's query string and fragment by `query`.
    pub fn with_query(self, query: crate::query::HttpQueryString) -> (r: HttpResponse)
        ensures
            r.path@ == crate::query::path_and_query(
                self.path@,
                crate::outside::form_text(crate::query::query_pairs(query.fields@, query.fields@.len())),
            ),
            r == (HttpResponse { path: r.path, ..self }),
    {
        let path = crate::query::path_with_query(self.path.as_str(), &query);
        HttpResponse { path, ..self }
    }

    /// Answers with `status`.
    pub fn with_status(self, status: u16) -> (r: HttpResponse)
        ensures
            r == (HttpResponse { status: Some(status), ..self }),
    {
        HttpResponse { status: Some(status), ..self }
    }

    /// Answers with header `name: value` as well.
    pub fn with_header(self, name: String, value: String) -> (r: HttpResponse)
        ensures
            r.headers@ == self.headers@.push((name, value)),
            r == (HttpResponse { headers: r.headers, ..self }),
    {
        let mut s = self;
        s.headers.push((name, value));
        s
    }

    /// Answers with the given headers as well, in order.
    pub fn with_headers(self, headers: Vec<(String, String)>) -> (r: HttpResponse)
        ensures
            r.headers@ == self.headers@ + headers@,
            r == (HttpResponse { headers: r.headers, ..self }),
    {
        let mut s = self;
        let mut more = headers;
        s.headers.append(&mut more);
        s
    }

    /// Answers with `body`.
    pub fn with_body(self, body: HttpBody) -> (r: HttpResponse)
        ensures
            r == (HttpResponse { body: Some(body), ..self }),
    {
        HttpResponse { body: Some(body), ..self }
    }

    /// Fails with `error` instead of answering.
    pub fn with_error(self, error: IoFailure) -> (r: HttpResponse)
        ensures
            r == (HttpResponse { error: Some(error), ..self }),
    {
        HttpResponse { error: Some(error), ..self }
    }

    /// Validates the request that fetches this response with `options`.
    pub fn with_options(self, options: Options) -> (r: HttpResponse)
        ensures
            r == (HttpResponse { options, ..self }),
    {
        HttpResponse { options, ..self }
    }

    /// Expects the request to carry header `name: value`.
    pub fn expected_header(self, name: String, value: String) -> (r: HttpResponse)
        ensures
            r.expected_headers@ == self.expected_headers@.push((name, value)),
            r == (HttpResponse { expected_headers: r.expected_headers, ..self }),
    {
        let mut s = self;
        s.expected_headers.push((name, value));
        s
    }

    /// Expects the request to carry the given headers.
    pub fn expected_headers(self, headers: Vec<(String, String)>) -> (r: HttpResponse)
        ensures
            r.expected_headers@ == self.expected_headers@ + headers@,
            r == (HttpResponse { expected_headers: r.expected_headers, ..self }),
    {
        let mut s = self;
        let mut more = headers;
        s.expected_headers.append(&mut more);
        s
    }

    /// Expects the request not to carry header `name`.
    pub fn unexpected_header(self, name: String) -> (r: HttpResponse)
        ensures
            r.unexpected_headers@ == self.unexpected_headers@.push(name),
            r == (HttpResponse { unexpected_headers: r.unexpected_headers, ..self }),
    {
        let mut s = self;
        s.unexpected_headers.push(name);
        s
    }

    /// Expects the request's body to match `body`; extra object keys and
    /// form fields are allowed.
    pub fn expected_body(self, body: HttpBody) -> (r: HttpResponse)
        ensures
            r == (HttpResponse { expected_body: Some(body), expected_exact_body: false, ..self }),
    {
        HttpResponse { expected_body: Some(body), expected_exact_body: false, ..self }
    }

    /// Expects the request's body to match `body` exactly: extra object
    /// keys and form fields fail too.
    pub fn expected_exact_body(self, body: HttpBody) -> (r: HttpResponse)
        ensures
            r == (HttpResponse { expected_body: Some(body), expected_exact_body: true, ..self }),
    {
        HttpResponse { expected_body: Some(body), expected_exact_body: true, ..self }
    }

    /// Asks for the request that fetches this response to be shown.
    pub fn dump(self) -> (r: HttpResponse)
        ensures
            r == (HttpResponse { dump_request: true, ..self }),
    {
        HttpResponse { dump_request: true, ..self }
    }
}

/// The provided responses `rs`, numbered from `start` on.
pub open spec fn slots(rs: Seq<HttpResponse>, start: nat) -> Seq<ProvidedResponse> {
    Seq::new(
        rs.len(),
        |i: int|
            ProvidedResponse {
                response: rs[i],
                provision_index: (start + i) as usize,
                fetch_index: 0,
                request: None,
            },
    )
}

impl ResponseProvider {
    /// An empty registry.
    pub fn new() -> (r: ResponseProvider)
        ensures
            r.response_index == 0,
            r.request_index == 0,
            r.provided@.len() == 0,
            r.additional@.len() == 0,
    {
        ResponseProvider {
            response_index: 0,
            provided: Vec::new(),
            request_index: 0,
            additional: Vec::new(),
        }
    }

    /// Clears all responses, requests and counters, for the next test.
    pub fn reset(&mut self)
        ensures
            final(self).response_index == 0,
            final(self).request_index == 0,
            final(self).provided@.len() == 0,
            final(self).additional@.len() == 0,
    {
        self.response_index = 0;
        self.request_index = 0;
        self.provided.clear();
        self.additional.clear();
    }

    /// Adds canned responses, each with the next provision index.
    pub fn provide(&mut self, resources: Vec<HttpResponse>)
        requires
            old(self).response_index + resources@.len() <= usize::MAX,
        ensures
            final(self).provided@ == old(self).provided@ + slots(
                resources@,
                old(self).response_index as nat,
            ),
            final(self).response_index == old(self).response_index + resources@.len(),
            final(self).request_index == old(self).request_index,
            final(self).additional@ == old(self).additional@,
    {
        let ghost all = resources@;
        let ghost start = self.response_index as nat;
        let ghost base = self.provided@;
        let mut rest = resources;
        let mut k: usize = 0;
        while rest.len() > 0
            invariant
                k + rest@.len() == all.len(),
                rest@ == all.skip(k as int),
                self.response_index == start + k,
                start + all.len() <= usize::MAX,
                self.provided@ == base + slots(all.take(k as int), start),
                self.request_index == old(self).request_index,
                self.additional@ == old(self).additional@,
            decreases rest.len(),
        {
            let r = rest.remove(0);
            let slot = ProvidedResponse {
                response: r,
                provision_index: self.response_index,
                fetch_index: 0,
                request: None,
            };
            self.provided.push(slot);
            self.response_index = self.response_index + 1;
            proof {
                assert(all.skip(k as int)[0] == all[k as int]);
                assert(rest@ =~= all.skip(k + 1));
                assert(slots(all.take(k + 1), start) =~= slots(all.take(k as int), start).push(
                    slot,
                ));
                assert(self.provided@ =~= base + slots(all.take(k + 1), start));
            }
            k = k + 1;
        }
        assert(all.take(k as int) =~= all);
    }

    /// Hands out every provided response, in provision order, and leaves
    /// none behind.
    pub fn provided_responses(&mut self) -> (r: Vec<ProvidedResponse>)
        ensures
            r@ == old(self).provided@,
            final(self).provided@.len() == 0,
            final(self).additional@ == old(self).additional@,
            final(self).response_index == old(self).response_index,
            final(self).request_index == old(self).request_index,
    {
        let mut out: Vec<ProvidedResponse> = Vec::new();
        out.append(&mut self.provided);
        assert(out@ =~= old(self).provided@);
        out
    }

    /// Hands out every request that found no response, in order, and
    /// leaves none behind.
    pub fn additional_requests(&mut self) -> (r: Vec<HttpRequest>)
        ensures
            r@ == old(self).additional@,
            final(self).additional@.len() == 0,
            final(self).provided@ == old(self).provided@,
            final(self).response_index == old(self).response_index,
            final(self).request_index == old(self).request_index,
    {
        let mut out: Vec<HttpRequest> = Vec::new();
        out.append(&mut self.additional);
        assert(out@ =~= old(self).additional@);
        out
    }

    /// Resolves a captured request: the first provided response that
    /// answers it records it and answers, with its bytes or its failure.
    /// Where none does, the request is kept as additional and the outer
    /// `Err` says that no response was provided.
    pub fn request(&mut self, request: HttpRequest) -> (r: Result<Result<Vec<u8>, IoFailure>, IoFailure>)
        requires
            old(self).request_index < usize::MAX,
        ensures
            final(self).request_index == old(self).request_index + 1,
            final(self).response_index == old(self).response_index,
            match first_answer(old(self).provided@, request, 0) {
                Some(i) => {
                    &&& final(self).provided@ == old(self).provided@.update(
                        i as int,
                        fetched(old(self).provided@[i as int], old(self).request_index, request),
                    )
                    &&& final(self).additional@ == old(self).additional@
                    &&& r matches Ok(out) && served(old(self).provided@[i as int].response, out)
                },
                None => {
                    &&& final(self).provided@ == old(self).provided@
                    &&& final(self).additional@ == old(self).additional@.push(request)
                    &&& r matches Err(e) && e.kind == FailureKind::ConnectionRefused
                },
            },
    {
        let index = self.request_index;
        self.request_index = self.request_index + 1;
        let mut i: usize = 0;
        while i < self.provided.len()
            invariant
                i <= self.provided@.len(),
                self.provided@ == old(self).provided@,
                self.additional@ == old(self).additional@,
                self.request_index == old(self).request_index + 1,
                self.response_index == old(self).response_index,
                index == old(self).request_index,
                first_answer(self.provided@, request, 0) == first_answer(
                    self.provided@,
                    request,
                    i as nat,
                ),
            decreases self.provided.len() - i,
        {
            let p = &self.provided[i];
            if p.request.is_none() && p.response.hostname == request.hostname && p.response.port
                == request.port && p.response.method == request.method && p.response.path
                == request.path {
                let slot = self.provided.remove(i);
                let out = respond(&slot.response);
                let ghost q = request;
                let updated = ProvidedResponse {
                    response: slot.response,
                    provision_index: slot.provision_index,
                    fetch_index: index,
                    request: Some(request),
                };
                self.provided.insert(i, updated);
                proof {
                    assert(updated == fetched(old(self).provided@[i as int], index, q));
                    assert(self.provided@ =~= old(self).provided@.update(i as int, updated));
                }
                return Ok(out);
            }
            i = i + 1;
        }
        self.additional.push(request);
        Err(IoFailure {
            kind: FailureKind::ConnectionRefused,
            message: String::from_str("No response provided in test."),
        })
    }
}

impl MockResponseProvider {
    /// Resolves `request` against the registry: see `ResponseProvider::request`.
    pub fn response_from_request(provider: &mut ResponseProvider, request: HttpRequest) -> (r:
        Result<Result<Vec<u8>, IoFailure>, IoFailure>)
        requires
            old(provider).request_index < usize::MAX,
        ensures
            final(provider).request_index == old(provider).request_index + 1,
            match first_answer(old(provider).provided@, request, 0) {
                Some(i) => {
                    &&& final(provider).provided@ == old(provider).provided@.update(
                        i as int,
                        fetched(old(provider).provided@[i as int], old(provider).request_index, request),
                    )
                    &&& final(provider).additional@ == old(provider).additional@
                    &&& r matches Ok(out) && served(old(provider).provided@[i as int].response, out)
                },
                None => {
                    &&& final(provider).provided@ == old(provider).provided@
                    &&& final(provider).additional@ == old(provider).additional@.push(request)
                    &&& r matches Err(e) && e.kind == FailureKind::ConnectionRefused
                },
            },
    {
        provider.request(request)
    }
}


/// Whether `r` is a canned response for the endpoint that `q` was sent to.
pub open spec fn same_endpoint(r: HttpResponse, q: HttpRequest) -> bool {
    &&& r.hostname@ == q.hostname@
    &&& r.port == q.port
    &&& r.method@ == q.method@
    &&& r.path@ == q.path@
}

/// A response was fetched out of order: by a request whose index differs
/// from the response's provision index.
pub open spec fn out_of_order(p: ProvidedResponse) -> bool {
    p.request is Some && p.provision_index != p.fetch_index
}

/// Whether provided response `p` was fetched out of order.
pub fn fetched_out_of_order(p: &ProvidedResponse) -> (r: bool)
    ensures
        r == out_of_order(*p),
{
    p.request.is_some() && p.provision_index != p.fetch_index
}

proof fn lemma_first_answer_is_answer(s: Seq<ProvidedResponse>, q: HttpRequest, k: nat)
    ensures
        match first_answer(s, q, k) {
            Some(i) => k <= i < s.len() && answers(s[i as int], q),
            None => forall|j: int| k <= j < s.len() ==> !answers(#[trigger] s[j], q),
        },
    decreases s.len() - k,
{
    if k < s.len() {
        lemma_first_answer_is_answer(s, q, k + 1);
    }
}

/// A provided response answers at most one request: once it answered a
/// request, no later request resolves to it.
pub proof fn lemma_answers_at_most_once(
    s: Seq<ProvidedResponse>,
    first: HttpRequest,
    second: HttpRequest,
    index: usize,
)
    requires
        first_answer(s, first, 0) is Some,
    ensures
        ({
            let i = first_answer(s, first, 0)->Some_0;
            first_answer(s.update(i as int, fetched(s[i as int], index, first)), second, 0) != Some(
                i,
            )
        }),
{
    let i = first_answer(s, first, 0)->Some_0;
    lemma_first_answer_is_answer(s, first, 0);
    let t = s.update(i as int, fetched(s[i as int], index, first));
    lemma_first_answer_is_answer(t, second, 0);
}

/// One canned response and two requests for its endpoint: the first
/// request is answered by it, the second finds no response.
pub proof fn lemma_one_response_two_requests(
    r: HttpResponse,
    first: HttpRequest,
    second: HttpRequest,
    index: usize,
)
    requires
        same_endpoint(r, first),
        same_endpoint(r, second),
    ensures
        ({
            let s = slots(seq![r], 0);
            &&& first_answer(s, first, 0) == Some(0nat)
            &&& first_answer(s.update(0, fetched(s[0], index, first)), second, 0) is None
        }),
{
    let s = slots(seq![r], 0);
    assert(answers(s[0], first));
    let t = s.update(0, fetched(s[0], index, first));
    lemma_first_answer_is_answer(t, second, 0);
    assert(first_answer(t, second, 1) is None);
}

/// Responses provided for two endpoints and fetched in the reverse order
/// are both flagged as fetched out of order.
pub proof fn lemma_reverse_fetch_flags_both(
    one: HttpResponse,
    two: HttpResponse,
    to_one: HttpRequest,
    to_two: HttpRequest,
)
    requires
        same_endpoint(one, to_one),
        same_endpoint(two, to_two),
        one.path@ != two.path@,
    ensures
        ({
            let s0 = slots(seq![one, two], 0);
            let s1 = s0.update(1, fetched(s0[1], 0, to_two));
            let s2 = s1.update(0, fetched(s1[0], 1, to_one));
            &&& first_answer(s0, to_two, 0) == Some(1nat)
            &&& first_answer(s1, to_one, 0) == Some(0nat)
            &&& out_of_order(s2[0])
            &&& out_of_order(s2[1])
        }),
{
    let s0 = slots(seq![one, two], 0);
    assert(!answers(s0[0], to_two));
    assert(answers(s0[1], to_two));
    assert(first_answer(s0, to_two, 1) == Some(1nat));
    let s1 = s0.update(1, fetched(s0[1], 0, to_two));
    assert(answers(s1[0], to_one));
}

} // verus!
