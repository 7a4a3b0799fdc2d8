//! Minimal backend of a text-only page viewer: URL resolution, HTTP request
//! framing, response parsing, charset decoding, and HTML-to-text extraction.
//!
//! A fetch runs resolve -> transport -> read -> decode -> extract. The
//! transport (sockets, TLS, file reads) lives with the caller; everything
//! that computes is here: `Request::try_new` resolves a URL,
//! `HttpClient::construct_request` frames the request head,
//! `parse_response` parses the received bytes, `Response::body_to_string`
//! decodes the body, and `show` reduces the response to displayable text.

pub mod client;
pub mod decode;
pub mod errors;
pub mod headers;
pub mod request;
pub mod response;
pub mod show;
pub mod text;

pub use client::HttpClient;
pub use client::HttpOpt;
pub use client::parse_data;
pub use errors::FetchError;
pub use headers::HeaderMap;
pub use request::HttpMethod;
pub use request::HttpSchema;
pub use request::HttpVersion;
pub use request::Request;
pub use response::Response;
pub use response::parse_response;
pub use show::show;
pub use show::show_only_body;
pub use show::show_without_tag;
