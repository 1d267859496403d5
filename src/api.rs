//! Test requests: what is sent to the service under test, what its
//! response is expected to hold, and the canned responses for the calls it
//! makes; and how the outcome of one exchange is decided.
use vstd::prelude::*;
use crate::mock::{HttpBody, HttpResponse, ResponseProvider};
use crate::options::Options;
use crate::report::{
    combine, failures_view, mock_failures, mock_failures_view, resource_failures,
    validate_requests, validate_http_resource, Failure, FailureView, Outcome,
};
use crate::wire::{find_header, header_position};

verus! {

/// A request to the service under test with its expectations.
#[derive(Debug)]
pub struct HttpRequest {
    pub method: String,
    pub path: String,
    pub headers: Vec<(String, String)>,
    pub body: Option<HttpBody>,
    pub expected_status: Option<u16>,
    pub expected_headers: Vec<(String, String)>,
    pub unexpected_headers: Vec<String>,
    pub expected_body: Option<HttpBody>,
    pub compare_exact: bool,
    pub options: Options,
    pub responses: Vec<HttpResponse>,
    /// Whether the response is to be shown as it came.
    pub dump_response: bool,
}

/// The response the service under test gave.
#[derive(Debug)]
pub struct ActualResponse {
    pub status: u16,
    pub headers: Vec<(String, String)>,
    pub body: Vec<u8>,
}

/// How the exchange with the service under test ended.
#[derive(Debug)]
pub enum Exchange {
    /// The service did not become reachable in time; nothing was sent.
    NotStarted,
    /// The service did not answer in time.
    TimedOut,
    Answered(ActualResponse),
}

/// The media type of a response's body: its Content-Type, else
/// `application/octet-stream`.
pub open spec fn response_type(r: ActualResponse) -> Seq<char> {
    match header_position(r.headers@, "Content-Type"@, 0) {
        Some(j) => r.headers@[j as int].1@,
        None => "application/octet-stream"@,
    }
}

/// The failures of the response against the request's expectations, led
/// by the response's dump where the test asks for one.
pub open spec fn response_failures(spec: HttpRequest, r: ActualResponse) -> Seq<FailureView> {
    (if spec.dump_response {
        seq![
            FailureView::Dump {
                headers: crate::wire::headers_view(r.headers@),
                body: crate::codec::decoded(r.body@, response_type(r)),
            },
        ]
    } else {
        seq![]
    }) + resource_failures(
        spec.expected_status,
        Some(r.status),
        spec.expected_headers@,
        spec.unexpected_headers@,
        spec.expected_body,
        r.headers@,
        r.body@,
        response_type(r),
        spec.compare_exact,
        spec.options.json_compare_depth as nat,
    )
}

/// A request for `method` and `path`, with default options and no
/// expectations.
pub fn http_request(method: &str, path: &str) -> (r: HttpRequest)
    ensures
        r.method@ == method@,
        r.path@ == path@,
        r.headers@.len() == 0,
        r.body is None,
        r.expected_status is None,
        r.expected_headers@.len() == 0,
        r.unexpected_headers@.len() == 0,
        r.expected_body is None,
        !r.compare_exact,
        r.options.json_compare_depth == 4096,
        r.options.error_suppress_cascading,
        r.responses@.len() == 0,
        !r.dump_response,
{
    HttpRequest {
        method: String::from_str(method),
        path: String::from_str(path),
        headers: Vec::new(),
        body: None,
        expected_status: None,
        expected_headers: Vec::new(),
        unexpected_headers: Vec::new(),
        expected_body: None,
        compare_exact: false,
        options: Options { json_compare_depth: 4096, api_request_timeout: 1000, error_suppress_cascading: true },
        responses: Vec::new(),
        dump_response: false,
    }
}

impl HttpRequest {
    /// Replaces the path's query string and fragment by `query`.
    pub fn with_query(self, query: crate::query::HttpQueryString) -> (r: HttpRequest)
        ensures
            r.path@ == crate::query::path_and_query(
                self.path@,
                crate::outside::form_text(crate::query::query_pairs(query.fields@, query.fields@.len())),
            ),
            r == (HttpRequest { path: r.path, ..self }),
    {
        let path = crate::query::path_with_query(self.path.as_str(), &query);
        HttpRequest { path, ..self }
    }

    /// Sends header `name: value` as well.
    pub fn with_header(self, name: String, value: String) -> (r: HttpRequest)
        ensures
            r.headers@ == self.headers@.push((name, value)),
            r == (HttpRequest { headers: r.headers, ..self }),
    {
        let mut s = self;
        s.headers.push((name, value));
        s
    }

    /// Sends the given headers as well, in order.
    pub fn with_headers(self, headers: Vec<(String, String)>) -> (r: HttpRequest)
        ensures
            r.headers@ == self.headers@ + headers@,
            r == (HttpRequest { headers: r.headers, ..self }),
    {
        let mut s = self;
        let mut more = headers;
        s.headers.append(&mut more);
        s
    }

    /// Sends `body`.
    pub fn with_body(self, body: HttpBody) -> (r: HttpRequest)
        ensures
            r == (HttpRequest { body: Some(body), ..self }),
    {
        HttpRequest { body: Some(body), ..self }
    }

    /// Uses `options`.
    pub fn with_options(self, options: Options) -> (r: HttpRequest)
        ensures
            r == (HttpRequest { options, ..self }),
    {
        HttpRequest { options, ..self }
    }

    /// Expects the response's status to be `status`.
    pub fn expected_status(self, status: u16) -> (r: HttpRequest)
        ensures
            r == (HttpRequest { expected_status: Some(status), ..self }),
    {
        HttpRequest { expected_status: Some(status), ..self }
    }

    /// Expects the response to carry header `name: value`.
    pub fn expected_header(self, name: String, value: String) -> (r: HttpRequest)
        ensures
            r.expected_headers@ == self.expected_headers@.push((name, value)),
            r == (HttpRequest { expected_headers: r.expected_headers, ..self }),
    {
        let mut s = self;
        s.expected_headers.push((name, value));
        s
    }

    /// Expects the response to carry the given headers.
    pub fn expected_headers(self, headers: Vec<(String, String)>) -> (r: HttpRequest)
        ensures
            r.expected_headers@ == self.expected_headers@ + headers@,
            r == (HttpRequest { expected_headers: r.expected_headers, ..self }),
    {
        let mut s = self;
        let mut more = headers;
        s.expected_headers.append(&mut more);
        s
    }

    /// Expects the response not to carry header `name`.
    pub fn unexpected_header(self, name: String) -> (r: HttpRequest)
        ensures
            r.unexpected_headers@ == self.unexpected_headers@.push(name),
            r == (HttpRequest { unexpected_headers: r.unexpected_headers, ..self }),
    {
        let mut s = self;
        s.unexpected_headers.push(name);
        s
    }

    /// Expects the response's body to match `body`; extra object keys and
    /// form fields are allowed.
    pub fn expected_body(self, body: HttpBody) -> (r: HttpRequest)
        ensures
            r == (HttpRequest { expected_body: Some(body), compare_exact: false, ..self }),
    {
        HttpRequest { expected_body: Some(body), compare_exact: false, ..self }
    }

    /// Expects the response's body to match `body` exactly.
    pub fn expected_exact_body(self, body: HttpBody) -> (r: HttpRequest)
        ensures
            r == (HttpRequest { expected_body: Some(body), compare_exact: true, ..self }),
    {
        HttpRequest { expected_body: Some(body), compare_exact: true, ..self }
    }

    /// Asks for the response to be shown as it came.
    pub fn dump(self) -> (r: HttpRequest)
        ensures
            r == (HttpRequest { dump_response: true, ..self }),
    {
        HttpRequest { dump_response: true, ..self }
    }

    /// Adds canned responses for the calls the service makes.
    pub fn provide(self, responses: Vec<HttpResponse>) -> (r: HttpRequest)
        ensures
            r.responses@ == self.responses@ + responses@,
            r == (HttpRequest { responses: r.responses, ..self }),
    {
        let mut s = self;
        let mut more = responses;
        s.responses.append(&mut more);
        s
    }

    /// Hands the canned responses to the registry, before the request is
    /// sent.
    pub fn start(&mut self, provider: &mut ResponseProvider)
        requires
            old(provider).response_index + old(self).responses@.len() <= usize::MAX,
        ensures
            final(provider).provided@ == old(provider).provided@ + crate::mock::slots(
                old(self).responses@,
                old(provider).response_index as nat,
            ),
            final(provider).additional@ == old(provider).additional@,
            final(provider).request_index == old(provider).request_index,
            final(self).responses@.len() == 0,
            final(self).method == old(self).method,
            final(self).path == old(self).path,
    {
        let mut responses: Vec<HttpResponse> = Vec::new();
        responses.append(&mut self.responses);
        provider.provide(responses);
    }

    /// Decides the outcome of the exchange. Without an answer there is one
    /// failure, and nothing else is validated. With one, the response is
    /// validated against the expectations and every provided response and
    /// unanswered request on the mocked side is; where the mocked side
    /// failed and cascading failures are suppressed, the response's
    /// failures are dropped and counted. The registry is reset either way.
    pub fn conclude(&self, exchange: Exchange, provider: &mut ResponseProvider) -> (r: Outcome)
        ensures
            final(provider).provided@.len() == 0,
            final(provider).additional@.len() == 0,
            final(provider).request_index == 0,
            final(provider).response_index == 0,
            exchange is NotStarted ==> failures_view(r.response@) == seq![FailureView::StartTimeout]
                && r.mock@.len() == 0 && r.suppressed == 0,
            exchange is TimedOut ==> failures_view(r.response@) == seq![FailureView::RequestTimeout]
                && r.mock@.len() == 0 && r.suppressed == 0,
            exchange matches Exchange::Answered(actual) ==> {
                let rf = response_failures(*self, actual);
                let mf = mock_failures(old(provider).provided@, old(provider).additional@);
                &&& mock_failures_view(r.mock@) == mf
                &&& (self.options.error_suppress_cascading && mf.len() > 0) ==> r.response@.len()
                    == 0 && r.suppressed == rf.len()
                &&& !(self.options.error_suppress_cascading && mf.len() > 0) ==> failures_view(
                    r.response@,
                ) == rf && r.suppressed == 0
            },
    {
        match exchange {
            Exchange::NotStarted => {
                provider.reset();
                let mut response: Vec<Failure> = Vec::new();
                response.push(Failure::StartTimeout);
                assert(failures_view(response@) =~= seq![FailureView::StartTimeout]);
                Outcome { response, mock: Vec::new(), suppressed: 0 }
            },
            Exchange::TimedOut => {
                provider.reset();
                let mut response: Vec<Failure> = Vec::new();
                response.push(Failure::RequestTimeout);
                assert(failures_view(response@) =~= seq![FailureView::RequestTimeout]);
                Outcome { response, mock: Vec::new(), suppressed: 0 }
            },
            Exchange::Answered(actual) => {
                let ct = match find_header(&actual.headers, "Content-Type") {
                    Some(j) => actual.headers[j].1.clone(),
                    None => String::from_str("application/octet-stream"),
                };
                let mut response: Vec<Failure> = Vec::new();
                if self.dump_response {
                    response.push(Failure::Dump {
                        headers: crate::mock::copy_headers(&actual.headers),
                        body: crate::codec::decode(actual.body.as_slice(), ct.as_str()),
                    });
                }
                let ghost head = failures_view(response@);
                let checked = validate_http_resource(
                    self.expected_status,
                    Some(actual.status),
                    &self.expected_headers,
                    &self.unexpected_headers,
                    &self.expected_body,
                    &actual.headers,
                    &actual.body,
                    ct.as_str(),
                    self.compare_exact,
                    self.options.json_compare_depth,
                );
                let ghost cv = failures_view(checked@);
                let mut checked = checked;
                response.append(&mut checked);
                assert(failures_view(response@) =~= head + cv);
                assert(failures_view(response@) =~= response_failures(*self, actual));
                let mock = validate_requests(provider);
                combine(response, mock, self.options.error_suppress_cascading)
            },
        }
    }
}

} // verus!
