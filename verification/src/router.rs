//! A client of a routing proxy's admin interface, which maps public domains to
//! targets.
use vstd::prelude::*;

verus! {

#[verifier::external_type_specification]
#[verifier::external_body]
pub struct ExReqwestClient(reqwest::Client);

/// Calls `reqwest::Client::new()`: a client with default settings. It panics only
/// where a TLS backend or a DNS resolver cannot be set up, and this crate builds
/// reqwest with neither; nothing is stated of the client.
#[verifier::external_body]
fn http_client() -> reqwest::Client {
    reqwest::Client::new()
}

/// The path under the proxy's address at which routes are added.
pub open spec fn routes_path() -> Seq<char> {
    "/admin/routes"@
}

/// A client of the admin interface of the proxy at `addr`.
pub struct ProxyClient {
    client: reqwest::Client,
    addr: String,
}

impl ProxyClient {
    /// The address of the proxy.
    pub closed spec fn address(&self) -> Seq<char> {
        self.addr@
    }

    /// The HTTP client that this proxy client holds.
    pub closed spec fn http_client_held(&self) -> reqwest::Client {
        self.client
    }

    /// A client of the proxy at `addr`.
    pub fn new(addr: &str) -> (p: Self)
        ensures
            p.address() == addr@,
    {
        ProxyClient { client: http_client(), addr: addr.to_owned() }
    }

    /// The HTTP client that talks to the proxy.
    pub fn http(&self) -> (c: &reqwest::Client)
        ensures
            *c == self.http_client_held(),
    {
        &self.client
    }

    /// The URL to which new routes are posted: the proxy's address, then the
    /// routes path.
    pub fn routes_url(&self) -> (url: String)
        ensures
            url@ == self.address() + routes_path(),
    {
        let mut url = String::from_str(self.addr.as_str());
        url.append("/admin/routes");
        url
    }
}

} // verus!
