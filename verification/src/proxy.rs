//! Routing of upstream requests through a same-origin proxy endpoint.

use vstd::prelude::*;

use vstd::string::StringExecFns;

verus! {

/// What percent-encoding makes of a string; the result depends on the
/// characters alone.
pub uninterp spec fn url_encoded_of(s: Seq<char>) -> Seq<char>;

/// Relies on urlencoding::encode: percent-encodes every byte except ASCII
/// alphanumerics and '-', '_', '.', '~', reading nothing but the input.
#[verifier::external_body]
fn encode_component(s: &str) -> (r: String)
    ensures
        r@ == url_encoded_of(s@),
        s@.len() == 0 ==> r@.len() == 0,
{
    urlencoding::encode(s).into_owned()
}

/// A proxy endpoint that forwards requests to an upstream API.
#[derive(Debug, Clone)]
pub struct ApiProxy {
    /// The proxy's own endpoint.
    pub url: String,
}

impl ApiProxy {
    /// The proxied form of a request: the proxy endpoint, the query marker,
    /// and the percent-encoded target.
    pub fn proxied_url(&self, url: &str) -> (r: String)
        ensures
            r@ == self.url@ + "?apiurl="@ + url_encoded_of(url@),
    {
        let mut out = self.url.clone();
        out.append("?apiurl=");
        let encoded = encode_component(url);
        out.append(encoded.as_str());
        out
    }
}

} // verus!
