//! HTTP response model: status summary, the retained response headers,
//! and one decoded response with its bounded body preview.
use vstd::prelude::*;
use crate::strutil::{dec_str, u64_to_dec};

verus! {

/// Status line and protocol labels of one response.
#[derive(Debug, Clone)]
pub struct HttpSummary {
    pub status: u16,
    pub reason: Option<String>,
    pub version: String,
    pub proto: String,
}

impl HttpSummary {
    pub fn new(status: u16, reason: Option<String>, version: String, proto: String) -> (r: Self)
        ensures
            r.status == status,
            r.reason == reason,
            r.version == version,
            r.proto == proto,
    {
        HttpSummary { status, reason, version, proto }
    }

    pub open spec fn status_line_spec(self) -> Seq<char> {
        match self.reason {
            Some(re) => dec_str(self.status as int) + " "@ + re@,
            None => dec_str(self.status as int),
        }
    }

    /// The numeric status, followed by the reason phrase when one was sent.
    pub fn status_line(&self) -> (r: String)
        ensures
            r@ == self.status_line_spec(),
    {
        let mut out = u64_to_dec(self.status as u64);
        match &self.reason {
            Some(re) => {
                out.append(" ");
                out.append(re.as_str());
                proof {
                    assert(out@ =~= self.status_line_spec());
                }
            },
            None => {},
        }
        out
    }
}

/// The fixed set of response headers kept in structured form; anything
/// else is dropped during parsing.
#[derive(Debug, Clone)]
pub struct ResponseHeaders {
    pub location: Option<String>,
    pub server: Option<String>,
    pub content_type: Option<String>,
    pub content_length: Option<u64>,
    pub transfer_encoding: Option<String>,
}

impl Default for ResponseHeaders {
    /// No header seen yet.
    fn default() -> (r: Self)
        ensures
            r.location is None,
            r.server is None,
            r.content_type is None,
            r.content_length is None,
            r.transfer_encoding is None,
    {
        ResponseHeaders {
            location: None,
            server: None,
            content_type: None,
            content_length: None,
            transfer_encoding: None,
        }
    }
}

/// Content of an `Option<String>`, as character sequences.
pub open spec fn opt_str_view(o: Option<String>) -> Option<Seq<char>> {
    match o {
        Some(s) => Some(s@),
        None => None,
    }
}

/// The retained headers as character sequences and plain values.
pub struct HeadersModel {
    pub location: Option<Seq<char>>,
    pub server: Option<Seq<char>>,
    pub content_type: Option<Seq<char>>,
    pub content_length: Option<u64>,
    pub transfer_encoding: Option<Seq<char>>,
}

impl View for ResponseHeaders {
    type V = HeadersModel;

    open spec fn view(&self) -> HeadersModel {
        HeadersModel {
            location: opt_str_view(self.location),
            server: opt_str_view(self.server),
            content_type: opt_str_view(self.content_type),
            content_length: self.content_length,
            transfer_encoding: opt_str_view(self.transfer_encoding),
        }
    }
}

/// The model of headers before any line was read.
pub open spec fn empty_headers() -> HeadersModel {
    HeadersModel {
        location: None,
        server: None,
        content_type: None,
        content_length: None,
        transfer_encoding: None,
    }
}

/// One decoded response: its summary, retained headers, time to first
/// byte, and a body preview bounded by the caller's byte budget.
#[derive(Debug)]
pub struct HttpResponse {
    pub summary: HttpSummary,
    pub headers: ResponseHeaders,
    pub ttfb_us: u64,
    pub body_preview: Vec<u8>,
}

/// The five statuses treated as redirects.
pub open spec fn is_redirect_spec(status: u16) -> bool {
    status == 301 || status == 302 || status == 303 || status == 307 || status == 308
}

/// The five statuses treated as redirects: 301, 302, 303, 307 and 308.
pub fn is_redirect(status: u16) -> (r: bool)
    ensures
        r == is_redirect_spec(status),
{
    status == 301 || status == 302 || status == 303 || status == 307 || status == 308
}

} // verus!
