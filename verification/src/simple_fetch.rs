use vstd::prelude::*;
use vstd::string::StringSliceAdditionalSpecFns;
use std::sync::Arc;

verus! {

// ---------------------------------------------------------------------------
// A minimal fixed-target fetch task: one factory describing the target
// server, one numbered task per request, each summarising its response by
// size. Connecting and the actual read/write are the caller's unverified
// edge; what gets written and how a response is summarised are decided
// here.
// ---------------------------------------------------------------------------

/// Describes the target server: the socket address to connect to and the
/// Host header to present.
pub struct HttpClientFactory {
    /// The socket address, as text.
    pub addr: String,
    /// The value of the Host header.
    pub host_header: String,
}

impl HttpClientFactory {
    /// A factory for connections to `addr` that present `host_header`.
    pub fn new(addr: &str, host_header: &str) -> (factory: HttpClientFactory)
        ensures
            factory.addr@ == addr@,
            factory.host_header@ == host_header@,
    {
        HttpClientFactory { addr: addr.to_owned(), host_header: host_header.to_owned() }
    }

    /// The Host header to present.
    pub fn host_header(&self) -> (host: &String)
        ensures
            host@ == self.host_header@,
    {
        &self.host_header
    }
}

/// The result of one fetch task: which task it was, and how many bytes the
/// complete response held.
pub struct ScrapeResult {
    /// The task's number.
    pub id: usize,
    /// The response's length in bytes.
    pub len: usize,
}

/// The complete request one task writes: a root GET with the given Host
/// header and a fixed set of trailing headers.
pub open spec fn spec_get_request(host: Seq<char>) -> Seq<char> {
    "GET / HTTP/1.1\r\nHost: "@ + host
        + "\r\nUser-Agent: curl/7.81.0\r\nAccept: */*\r\nConnection: close\r\n\r\n"@
}

/// One numbered fetch task against the factory's target.
pub struct HttpScraper {
    /// The task's number, echoed into its result.
    pub id: usize,
    /// The shared description of the target.
    pub client_factory: Arc<HttpClientFactory>,
}

impl HttpScraper {
    /// Task `id` against `client_factory`'s target.
    pub fn new(id: usize, client_factory: Arc<HttpClientFactory>) -> (scraper: HttpScraper)
        ensures
            scraper.id == id,
            scraper.client_factory == client_factory,
    {
        HttpScraper { id, client_factory }
    }

    /// The exact request text the scraper writes to the target.
    pub fn request_text(&self) -> (request: String)
        ensures
            request@ == spec_get_request(self.client_factory.host_header@),
    {
        let mut request = "GET / HTTP/1.1\r\nHost: ".to_owned();
        request.append(self.client_factory.host_header().as_str());
        request.append("\r\nUser-Agent: curl/7.81.0\r\nAccept: */*\r\nConnection: close\r\n\r\n");
        request
    }

    /// Summarise a complete response: the scraper's number and the response's
    /// length in bytes.
    pub fn summarize(&self, response: &str) -> (result: ScrapeResult)
        ensures
            result.id == self.id,
            result.len == response.spec_bytes().len() as usize,
    {
        ScrapeResult { id: self.id, len: response.len() }
    }
}

} // verus!
