//! Configuration of test requests and of the comparisons they run.
use vstd::prelude::*;

verus! {

/// Options for requests and for the validation of their responses.
#[derive(Clone, Copy, Debug)]
pub struct Options {
    /// How deep JSON bodies are compared; the root is at depth 1.
    pub json_compare_depth: usize,
    /// How long, in milliseconds, a request may take before it times out.
    pub api_request_timeout: u64,
    /// Whether failures of the top-level response are dropped when the
    /// mocked side failed too, as they are likely caused by it.
    pub error_suppress_cascading: bool,
}

impl Default for Options {
    fn default() -> (r: Options)
        ensures
            r.json_compare_depth == 4096,
            r.api_request_timeout == 1000,
            r.error_suppress_cascading,
    {
        Options { json_compare_depth: 4096, api_request_timeout: 1000, error_suppress_cascading: true }
    }
}

} // verus!
