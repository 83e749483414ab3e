use vstd::prelude::*;

verus! {

/// `reqwest::Client`, an HTTP client.
#[verifier::external_type_specification]
#[verifier::external_body]
pub struct ExClient(reqwest::Client);

/// `reqwest::Client::new`: a client with the default settings. Nothing is
/// claimed of the client. The crate documents that this call panics when no
/// TLS back end can be set up or the system's resolver settings cannot be
/// read; neither depends on an argument.
#[verifier::external_body]
fn new_client() -> reqwest::Client {
    reqwest::Client::new()
}

/// `Clone for reqwest::Client`: another handle to the same client. Nothing is
/// claimed of it.
pub assume_specification[ <reqwest::Client as Clone>::clone ](c: &reqwest::Client) -> reqwest::Client;

/// A GET request to one URL.
#[derive(Clone)]
pub struct Request {
    url: String,
    client: reqwest::Client,
}

impl Request {
    /// The URL the request goes to.
    pub closed spec fn url(&self) -> Seq<char> {
        self.url@
    }

    /// A request to `url`.
    pub fn new(url: String) -> (r: Request)
        ensures
            r.url() == url@,
    {
        Request { url, client: new_client() }
    }

    /// The URL the request goes to.
    pub fn get_url(&self) -> (u: &str)
        ensures
            u@ == self.url(),
    {
        self.url.as_str()
    }
}

} // verus!
