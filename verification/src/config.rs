//! The immutable configuration snapshot the proxy routes by: static
//! hostname routes, placeholder responses, and the listen addresses.

use base64::Engine;
use vstd::prelude::*;
use vstd::string::StringExecFns;

use crate::model::{Hostname, SpecUpstream, Upstream};
use crate::status::StatusResponse;

verus! {

/// Pre-loaded placeholder responses: for a known-but-unreachable
/// upstream, and for an unknown hostname.
#[derive(Debug)]
pub struct PlaceholderServerResponses {
    pub offline: Option<StatusResponse>,
    pub no_mapping: Option<StatusResponse>,
}

/// The placeholder server's part of the configuration.
#[derive(Debug)]
pub struct PlaceholderServerConfig {
    pub responses: PlaceholderServerResponses,
}

/// Where the proxy itself listens.
#[derive(Debug)]
pub struct ProxyConfig {
    pub listen_address: String,
}

/// Where the administrative surface listens, when enabled.
#[derive(Debug)]
pub struct UiServerConfig {
    pub listen_address: String,
}

/// One immutable configuration snapshot.
#[derive(Debug)]
pub struct Config {
    pub placeholder_server: PlaceholderServerConfig,
    pub static_servers: Vec<(Hostname, Upstream)>,
    pub ui: Option<UiServerConfig>,
    pub proxy: ProxyConfig,
}

/// First-match lookup among the static routes.
pub open spec fn lookup_static(
    entries: Seq<(Hostname, Upstream)>,
    h: Seq<char>,
) -> Option<SpecUpstream>
    decreases entries.len(),
{
    if entries.len() == 0 {
        None
    } else if entries[0].0@ == h {
        Some(entries[0].1@)
    } else {
        lookup_static(entries.drop_first(), h)
    }
}

impl Config {
    /// The upstream a hostname is statically mapped to, if any.
    pub fn static_upstream(&self, h: &Hostname) -> (r: Option<Upstream>)
        ensures
            match r {
                Some(u) => lookup_static(self.static_servers@, h@) == Some(u@),
                None => lookup_static(self.static_servers@, h@) is None,
            },
    {
        let n = self.static_servers.len();
        let mut i: usize = 0;
        proof {
            assert(self.static_servers@.skip(0) =~= self.static_servers@);
        }
        while i < n
            invariant
                0 <= i <= n,
                n == self.static_servers@.len(),
                lookup_static(self.static_servers@, h@) == lookup_static(
                    self.static_servers@.skip(i as int),
                    h@,
                ),
            decreases n - i,
        {
            let entry = &self.static_servers[i];
            proof {
                assert(self.static_servers@.skip(i as int)[0] == self.static_servers@[i as int]);
                assert(self.static_servers@.skip(i as int).drop_first()
                    =~= self.static_servers@.skip(i as int + 1));
            }
            if entry.0 == *h {
                return Some(entry.1.clone());
            }
            i = i + 1;
        }
        proof {
            assert(self.static_servers@.skip(n as int).len() == 0);
        }
        None
    }
}

/// What the base64 crate's standard engine produces for these bytes;
/// a pure function of the bytes alone.
pub uninterp spec fn base64_standard_chars(bytes: Seq<u8>) -> Seq<char>;

/// Relies on base64's STANDARD engine: the padded standard-alphabet
/// encoding, four output characters for every three input bytes.
#[verifier::external_body]
fn base64_encode(bytes: &Vec<u8>) -> (r: String)
    ensures
        r@ == base64_standard_chars(bytes@),
        r@.len() == 4 * ((bytes@.len() + 2) / 3),
{
    base64::prelude::BASE64_STANDARD.encode(bytes)
}

/// The `data:` URI a favicon is inlined as.
pub open spec fn favicon_uri_chars(png: Seq<u8>) -> Seq<char> {
    "data:image/png;base64,"@ + base64_standard_chars(png)
}

/// Inline raw PNG bytes as the `data:` URI the status response carries.
pub fn favicon_data_uri(png: &Vec<u8>) -> (r: String)
    ensures
        r@ == favicon_uri_chars(png@),
{
    let mut s = String::from_str("data:image/png;base64,");
    let encoded = base64_encode(png);
    s.append(encoded.as_str());
    s
}

/// Replace a response's favicon with the inlined form of these PNG
/// bytes, leaving every other field as it was.
pub fn with_favicon_data(response: StatusResponse, png: &Vec<u8>) -> (r: StatusResponse)
    ensures
        r@.version == response@.version,
        r@.players == response@.players,
        r@.description == response@.description,
        r@.favicon == Some(favicon_uri_chars(png@)),
{
    let uri = favicon_data_uri(png);
    StatusResponse {
        version: response.version,
        players: response.players,
        description: response.description,
        favicon: Some(uri),
    }
}

} // verus!
