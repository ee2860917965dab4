//! Summary of one negotiated TLS session.
use vstd::prelude::*;
use crate::strutil::str_eq;

verus! {

/// Negotiated protocol version, optional ALPN identifier, cipher suite
/// label, peer chain length, and whether the peer verified.
#[derive(Debug, Clone)]
pub struct TlsSummary {
    pub version: String,
    pub alpn: Option<String>,
    pub cipher: String,
    pub chain_len: usize,
    pub verified: bool,
}

impl TlsSummary {
    pub fn new(version: String, alpn: Option<String>, cipher: String, chain_len: usize, verified: bool) -> (r: Self)
        ensures
            r.version == version,
            r.alpn == alpn,
            r.cipher == cipher,
            r.chain_len == chain_len,
            r.verified == verified,
    {
        TlsSummary { version, alpn, cipher, chain_len, verified }
    }

    pub open spec fn is_h2_spec(self) -> bool {
        match self.alpn {
            Some(a) => a@ == "h2"@,
            None => false,
        }
    }

    /// True exactly when the negotiated ALPN identifier is the HTTP/2
    /// token; this selects the HTTP sub-protocol used for the request.
    pub fn is_h2(&self) -> (r: bool)
        ensures
            r == self.is_h2_spec(),
    {
        match &self.alpn {
            Some(a) => str_eq(a.as_str(), "h2"),
            None => false,
        }
    }
}

} // verus!
