//! URL parsing and redirect resolution. The parsing itself is the url
//! crate's, behind trusted wrappers whose results are named functions of
//! the input strings; the scheme policy, default ports, and error
//! classification on top of it are verified here.
use vstd::prelude::*;
use crate::error::{ErrorClass, UdocError};
use crate::strutil::str_eq;

verus! {

/// The components the URL parser hands back for one absolute URL:
/// scheme, optional host, the port (explicit or the scheme's known
/// default), path, optional query, and the normalized form.
pub struct UrlParts {
    pub scheme: String,
    pub host: Option<String>,
    pub port: Option<u16>,
    pub path: String,
    pub query: Option<String>,
    pub full: String,
}

/// What the url crate's parse extracts from a string, as a function of
/// the string alone; absent when the string is not an absolute URL.
pub uninterp spec fn url_parse(s: Seq<char>) -> Option<UrlParts>;

/// Relies on `url::Url::parse` and the accessors `scheme`, `host_str`,
/// `port_or_known_default`, `path`, `query`, and the `Display` form:
/// together they are a function of the input string alone.
#[verifier::external_body]
fn parse_url_raw(input: &str) -> (r: Option<UrlParts>)
    ensures
        r == url_parse(input@),
{
    match url::Url::parse(input) {
        Ok(u) => Some(UrlParts {
            scheme: u.scheme().to_string(),
            host: u.host_str().map(|h| h.to_string()),
            port: u.port_or_known_default(),
            path: u.path().to_string(),
            query: u.query().map(|q| q.to_string()),
            full: u.to_string(),
        }),
        Err(_) => None,
    }
}

/// The normalized result of resolving `location` against `base`, as a
/// function of the two strings alone; absent when the base is not an
/// absolute URL or the reference cannot be resolved against it.
pub uninterp spec fn url_join(base: Seq<char>, location: Seq<char>) -> Option<Seq<char>>;

/// Relies on `url::Url::parse` and `Url::join`: resolving a reference,
/// relative or absolute, against an absolute base is a function of the
/// two strings alone.
#[verifier::external_body]
fn join_url_raw(base: &str, location: &str) -> (r: Option<String>)
    ensures
        match r {
            Some(s) => url_join(base@, location@) == Some(s@),
            None => url_join(base@, location@) is None,
        },
{
    match url::Url::parse(base) {
        Ok(b) => match b.join(location) {
            Ok(u) => Some(u.to_string()),
            Err(_) => None,
        },
        Err(_) => None,
    }
}

/// One URL as the pipeline uses it: scheme, host, effective port, path
/// with query, and the full normalized string that loop detection and
/// redirect resolution work on.
#[derive(Debug)]
pub struct ParsedUrl {
    pub scheme: String,
    pub host: String,
    pub port: u16,
    pub path_and_query: String,
    pub full: String,
}

/// The same components as character sequences.
pub struct ParsedUrlModel {
    pub scheme: Seq<char>,
    pub host: Seq<char>,
    pub port: u16,
    pub path_and_query: Seq<char>,
    pub full: Seq<char>,
}

impl View for ParsedUrl {
    type V = ParsedUrlModel;

    open spec fn view(&self) -> ParsedUrlModel {
        ParsedUrlModel {
            scheme: self.scheme@,
            host: self.host@,
            port: self.port,
            path_and_query: self.path_and_query@,
            full: self.full@,
        }
    }
}

impl ParsedUrlModel {
    pub open spec fn is_https_spec(self) -> bool {
        self.scheme == "https"@
    }

    pub open spec fn scheme_supported(self) -> bool {
        self.scheme == "http"@ || self.scheme == "https"@
    }
}

/// The parse of one input URL: it must be an absolute URL with an http
/// or https scheme and a host; the port falls back to the scheme's
/// default, and an empty path with no query becomes `/`. The error says
/// which of the three checks failed.
pub open spec fn parse_url_model(input: Seq<char>) -> Result<ParsedUrlModel, Seq<char>> {
    match url_parse(input) {
        None => Err("invalid URL"@),
        Some(p) => {
            if !(p.scheme@ == "http"@ || p.scheme@ == "https"@) {
                Err("unsupported scheme '"@ + p.scheme@ + "', expected http or https"@)
            } else {
                match p.host {
                    None => Err("missing host"@),
                    Some(h) => Ok(ParsedUrlModel {
                        scheme: p.scheme@,
                        host: h@,
                        port: (match p.port {
                            Some(pt) => pt,
                            None => if p.scheme@ == "https"@ { 443 } else { 80 },
                        }),
                        path_and_query: {
                            let pq = (match p.query {
                                Some(q) => p.path@ + "?"@ + q@,
                                None => p.path@,
                            });
                            if pq.len() == 0 { "/"@ } else { pq }
                        },
                        full: p.full@,
                    }),
                }
            }
        },
    }
}

impl ParsedUrl {
    /// Parses an input URL, rejecting what is not an absolute http or
    /// https URL with a host; failures carry the Input class.
    pub fn parse(input: &str) -> (r: Result<ParsedUrl, UdocError>)
        ensures
            match r {
                Ok(p) => parse_url_model(input@) == Ok::<ParsedUrlModel, Seq<char>>(p@),
                Err(e) => parse_url_model(input@) matches Err(m)
                    && e.class == ErrorClass::Input
                    && e.message@ == m,
            },
    {
        match Self::parse_with_class(input) {
            Ok(p) => Ok(p),
            Err(m) => Err(UdocError::input(m)),
        }
    }

    /// Parses as `parse` does, leaving the caller to classify failures.
    fn parse_with_class(input: &str) -> (r: Result<ParsedUrl, String>)
        ensures
            match r {
                Ok(p) => parse_url_model(input@) == Ok::<ParsedUrlModel, Seq<char>>(p@),
                Err(m) => parse_url_model(input@) matches Err(ms) && m@ == ms,
            },
    {
        let p = match parse_url_raw(input) {
            None => {
                return Err("invalid URL".to_owned());
            },
            Some(p) => p,
        };
        let is_http = str_eq(p.scheme.as_str(), "http");
        let is_https = str_eq(p.scheme.as_str(), "https");
        if !is_http && !is_https {
            let mut m = "unsupported scheme '".to_owned();
            m.append(p.scheme.as_str());
            m.append("', expected http or https");
            proof {
                assert(m@ =~= "unsupported scheme '"@ + p.scheme@ + "', expected http or https"@);
            }
            return Err(m);
        }
        let host = match p.host {
            None => {
                return Err("missing host".to_owned());
            },
            Some(h) => h,
        };
        let port: u16 = match p.port {
            Some(pt) => pt,
            None => if is_https { 443 } else { 80 },
        };
        let path_and_query: String = match p.query {
            Some(q) => {
                let mut pq = p.path;
                pq.append("?");
                pq.append(q.as_str());
                proof {
                    reveal_strlit("?");
                    assert(pq@.len() > 0);
                }
                pq
            },
            None => {
                if p.path.as_str().is_empty() {
                    "/".to_owned()
                } else {
                    p.path
                }
            },
        };
        Ok(ParsedUrl {
            scheme: p.scheme,
            host,
            port,
            path_and_query,
            full: p.full,
        })
    }

    /// True exactly when the scheme is https.
    pub fn is_https(&self) -> (r: bool)
        ensures
            r == self@.is_https_spec(),
    {
        str_eq(self.scheme.as_str(), "https")
    }

    /// The redirect resolution of one Location value against this URL:
    /// the reference resolved against the full normalized form, then
    /// parsed under the same checks as an input URL.
    pub open spec fn resolve_model(self, location: Seq<char>) -> Result<ParsedUrlModel, Seq<char>> {
        match url_join(self@.full, location) {
            None => Err("invalid redirect location"@),
            Some(s) => parse_url_model(s),
        }
    }

    /// Resolves a redirect target, relative references permitted,
    /// against this URL; failures carry the Http class.
    pub fn resolve_redirect(&self, location: &str) -> (r: Result<ParsedUrl, UdocError>)
        ensures
            match r {
                Ok(p) => self.resolve_model(location@) == Ok::<ParsedUrlModel, Seq<char>>(p@),
                Err(e) => self.resolve_model(location@) matches Err(m)
                    && e.class == ErrorClass::Http
                    && e.message@ == m,
            },
    {
        let joined = match join_url_raw(self.full.as_str(), location) {
            None => {
                return Err(UdocError::http("invalid redirect location".to_owned()));
            },
            Some(s) => s,
        };
        match Self::parse_with_class(joined.as_str()) {
            Ok(p) => Ok(p),
            Err(m) => Err(UdocError::http(m)),
        }
    }
}

} // verus!
