//! The configuration handed to a resolution: the hostname to look up
//! and the ordered list of candidate nameserver addresses. Discovering
//! the list — command-line flags or the system resolver configuration
//! — is a collaborator's job outside the library.

use vstd::prelude::*;

verus! {

/// What a resolution needs from its caller: the target hostname and
/// the candidate servers, tried in order.
#[derive(Debug)]
pub struct AppConfig {
    pub hostname: String,
    pub dns_server: Vec<String>,
}

impl AppConfig {
    /// Package a hostname and an ordered server list.
    pub fn new(hostname: String, dns_server: Vec<String>) -> (r: Self)
        ensures
            r.hostname == hostname,
            r.dns_server == dns_server,
    {
        AppConfig { hostname, dns_server }
    }
}

} // verus!