//! Core of a single-shot network diagnostic client: given an HTTP or
//! HTTPS URL, a driver resolves the host, dials, optionally performs a
//! TLS handshake, and issues one GET, following redirects. This crate
//! holds the verified core: the redirect-following orchestration state
//! machine, the HTTP/1.1 wire decoder, and the report model. Network
//! adapters drive the state machine from outside through plain events.
pub mod strutil;
pub mod error;
pub mod timing;
pub mod http;
pub mod tls;
pub mod redirect;
pub mod target;
pub mod wire;
pub mod cert;
pub mod cert_parse;
pub mod url_parse;
pub mod report;
pub mod config;
pub mod pipeline;
pub mod cli;
