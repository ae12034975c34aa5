use vstd::prelude::*;

verus! {

/// The HTTP method of an outbound request.
#[derive(Clone, Copy, Debug, PartialEq, Eq, Structural)]
pub enum HttpMethod {
    Get,
    Post,
    Put,
    Patch,
    Delete,
}

/// One load test: the target URL, the method, how many requests to issue,
/// and the optional headers, body template and data source path.
///
/// Headers are kept as an ordered list of name/value pairs; the order is the
/// order in which they are applied to a request.
pub struct LoadTestConfig {
    pub url: String,
    pub method: Option<HttpMethod>,
    pub request_count: usize,
    pub headers: Option<Vec<(String, String)>>,
    pub body: Option<String>,
    pub data_file: Option<String>,
}

impl LoadTestConfig {
    /// The configured header pairs; empty when none are configured.
    pub open spec fn headers_seq(self) -> Seq<(String, String)> {
        match self.headers {
            Some(h) => h@,
            None => Seq::empty(),
        }
    }

    /// The configured method, defaulting to GET.
    pub open spec fn spec_method(self) -> HttpMethod {
        match self.method {
            Some(m) => m,
            None => HttpMethod::Get,
        }
    }

    /// The method this test uses: the configured one, or GET when none is set.
    pub fn effective_method(&self) -> (m: HttpMethod)
        ensures
            m == self.spec_method(),
    {
        match &self.method {
            Some(m) => *m,
            None => HttpMethod::Get,
        }
    }
}

} // verus!
