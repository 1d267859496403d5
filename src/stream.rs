//! The mock transport: it takes the bytes a client writes, reads them as a
//! request when the client flushes, resolves that request against the
//! registry, and hands the answer back to the client's reads.
use vstd::prelude::*;
use vstd::utf8::{decode_utf8, valid_utf8};
use crate::mock::{
    fetched, first_answer, served, FailureKind, HttpRequest, IoFailure, ResponseProvider,
};
use crate::outside::{parse_request_head, raw_headers_view, request_head_of, utf8_text};

verus! {

/// A connection to `host:port` that never touches the network.
#[derive(Debug)]
pub struct MockStream {
    pub host: String,
    pub port: u16,
    /// What the client wrote.
    pub request: Vec<u8>,
    /// What the client reads: the answer, or the failure to report.
    pub response: Result<Vec<u8>, IoFailure>,
    /// How much of the answer was read.
    pub response_index: usize,
}

/// Whether every header value is valid UTF-8.
pub open spec fn values_are_text(hs: Seq<(Seq<char>, Seq<u8>)>) -> bool {
    forall|i: int| 0 <= i < hs.len() ==> valid_utf8(#[trigger] hs[i].1)
}

/// The request captured from `data` sent to `host:port`: its head as the
/// HTTP parser reads it, with text header values, and the bytes after the
/// head as its body.
pub open spec fn captured(host: Seq<char>, port: u16, data: Seq<u8>, q: HttpRequest) -> bool {
    match request_head_of(data) {
        Some((method, path, hs, n)) => {
            &&& q.hostname@ == host
            &&& q.port == port
            &&& q.method@ == method
            &&& q.path@ == path
            &&& q.headers@.len() == hs.len()
            &&& forall|i: int|
                0 <= i < hs.len() ==> #[trigger] q.headers@[i].0@ == hs[i].0 && q.headers@[i].1@
                    == decode_utf8(hs[i].1)
            &&& q.body@ == data.subrange(n as int, data.len() as int)
        },
        None => false,
    }
}

/// Whether `data` holds a request that can be captured.
pub open spec fn capturable(data: Seq<u8>) -> bool {
    match request_head_of(data) {
        Some((_, _, hs, _)) => values_are_text(hs),
        None => false,
    }
}

impl MockStream {
    /// What a read can still hand out is within the answer.
    pub open spec fn wf(&self) -> bool {
        self.response matches Ok(r) ==> self.response_index <= r@.len()
    }

    /// A fresh connection to `host:port`.
    pub fn new(host: &str, port: u16) -> (r: MockStream)
        ensures
            r.host@ == host@,
            r.port == port,
            r.request@.len() == 0,
            r.response matches Ok(v) && v@.len() == 0,
            r.response_index == 0,
            r.wf(),
    {
        MockStream {
            host: String::from_str(host),
            port,
            request: Vec::new(),
            response: Ok(Vec::new()),
            response_index: 0,
        }
    }

    /// Takes bytes the client writes; all of them.
    pub fn write(&mut self, buf: &[u8]) -> (r: usize)
        ensures
            final(self).request@ == old(self).request@ + buf@,
            r == buf@.len(),
            final(self).host == old(self).host,
            final(self).port == old(self).port,
            final(self).response == old(self).response,
            final(self).response_index == old(self).response_index,
    {
        let mut i: usize = 0;
        let ghost start = self.request@;
        while i < buf.len()
            invariant
                i <= buf@.len(),
                self.request@ == start + buf@.take(i as int),
                self.host == old(self).host,
                self.port == old(self).port,
                self.response == old(self).response,
                self.response_index == old(self).response_index,
            decreases buf.len() - i,
        {
            self.request.push(buf[i]);
            assert(buf@.take(i + 1) =~= buf@.take(i as int).push(buf@[i as int]));
            i = i + 1;
        }
        assert(buf@.take(i as int) =~= buf@);
        buf.len()
    }

    /// The request the client wrote, or a failure where it cannot be read.
    pub fn capture(&self) -> (r: Result<HttpRequest, IoFailure>)
        ensures
            match r {
                Ok(q) => capturable(self.request@) && captured(self.host@, self.port, self.request@, q),
                Err(e) => !capturable(self.request@) && e.kind == FailureKind::Other,
            },
    {
        let malformed = IoFailure {
            kind: FailureKind::Other,
            message: String::from_str("Captured request could not be parsed."),
        };
        match parse_request_head(self.request.as_slice()) {
            None => Err(malformed),
            Some((method, path, raw, n)) => {
                let ghost hv = raw_headers_view(raw@);
                let mut headers: Vec<(String, String)> = Vec::new();
                let mut i: usize = 0;
                while i < raw.len()
                    invariant
                        i <= raw@.len(),
                        malformed.kind == FailureKind::Other,
                        hv == raw_headers_view(raw@),
                        request_head_of(self.request@) == Some((method@, path@, hv, n as nat)),
                        headers@.len() == i,
                        forall|k: int| 0 <= k < i ==> valid_utf8(#[trigger] hv[k].1),
                        forall|k: int|
                            0 <= k < i ==> #[trigger] headers@[k].0@ == hv[k].0 && headers@[k].1@
                                == decode_utf8(hv[k].1),
                    decreases raw.len() - i,
                {
                    assert(hv[i as int] == (raw@[i as int].0@, raw@[i as int].1@));
                    match utf8_text(raw[i].1.as_slice()) {
                        Some(value) => {
                            headers.push((raw[i].0.clone(), value));
                        },
                        None => {
                            assert(!valid_utf8(hv[i as int].1));
                            assert(!values_are_text(hv));
                            return Err(malformed);
                        },
                    }
                    i = i + 1;
                }
                let body = crate::media::copy_range(self.request.as_slice(), n, self.request.len());
                Ok(HttpRequest { hostname: self.host.clone(), port: self.port, method, path, headers, body })
            },
        }
    }

    /// Reads what the client wrote as a request and resolves it against the
    /// registry; the answer is what later reads hand out. A request that
    /// cannot be read, or that no response answers, fails the flush.
    pub fn flush(&mut self, provider: &mut ResponseProvider) -> (r: Result<(), IoFailure>)
        requires
            old(provider).request_index < usize::MAX,
            old(self).wf(),
        ensures
            final(self).wf(),
            final(self).host == old(self).host,
            final(self).port == old(self).port,
            final(self).request == old(self).request,
            !capturable(old(self).request@) ==> r is Err && *final(provider) == *old(provider)
                && *final(self) == *old(self),
            capturable(old(self).request@) ==> exists|q: HttpRequest|
                captured(old(self).host@, old(self).port, old(self).request@, q) && match first_answer(
                    old(provider).provided@,
                    q,
                    0,
                ) {
                    Some(i) => {
                        &&& final(provider).provided@ == old(provider).provided@.update(
                            i as int,
                            fetched(old(provider).provided@[i as int], old(provider).request_index, q),
                        )
                        &&& r is Ok
                        &&& served(old(provider).provided@[i as int].response, final(self).response)
                        &&& final(self).response_index == 0
                    },
                    None => {
                        &&& final(provider).provided@ == old(provider).provided@
                        &&& final(provider).additional@ == old(provider).additional@.push(q)
                        &&& r matches Err(e) && e.kind == FailureKind::ConnectionRefused
                        &&& *final(self) == *old(self)
                    },
                },
    {
        match self.capture() {
            Err(e) => Err(e),
            Ok(q) => {
                let ghost gq = q;
                match provider.request(q) {
                    Ok(answer) => {
                        self.response = answer;
                        self.response_index = 0;
                        assert(captured(old(self).host@, old(self).port, old(self).request@, gq));
                        Ok(())
                    },
                    Err(e) => {
                        assert(captured(old(self).host@, old(self).port, old(self).request@, gq));
                        Err(e)
                    },
                }
            },
        }
    }

    /// Hands out up to `max` bytes of the answer, from where the last read
    /// stopped; or the failure the answer stands for.
    pub fn read(&mut self, max: usize) -> (r: Result<Vec<u8>, IoFailure>)
        requires
            old(self).wf(),
        ensures
            final(self).wf(),
            final(self).response == old(self).response,
            final(self).request == old(self).request,
            final(self).host == old(self).host,
            final(self).port == old(self).port,
            match old(self).response {
                Ok(answer) => {
                    let from = old(self).response_index as int;
                    let k = if max <= answer@.len() - from {
                        max as int
                    } else {
                        answer@.len() - from
                    };
                    &&& r matches Ok(v) && v@ == answer@.subrange(from, from + k)
                    &&& final(self).response_index == from + k
                },
                Err(f) => r matches Err(e) && e.kind == f.kind && e.message@ == f.message@
                    && *final(self) == *old(self),
            },
    {
        match &self.response {
            Ok(answer) => {
                let from = self.response_index;
                let available = answer.len() - from;
                let k = if max <= available {
                    max
                } else {
                    available
                };
                let v = crate::media::copy_range(answer.as_slice(), from, from + k);
                self.response_index = from + k;
                Ok(v)
            },
            Err(f) => Err(f.copy()),
        }
    }
}

} // verus!
