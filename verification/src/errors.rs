use vstd::prelude::*;

verus! {

/// Every failure a fetch can end with; each is terminal for the fetch that
/// raised it.
#[derive(Clone, Copy, Debug, PartialEq, Eq, Structural)]
pub enum FetchError {
    /// The URL names a scheme other than `http`, `https`, `file` or `data:`.
    UnsupportedScheme,
    /// A `data:` URL carries a mime type other than `text/html`.
    UnsupportedMediaType,
    /// The authority part of a URL, or a status or header line of a response,
    /// cannot be parsed.
    MalformedUrl,
    /// The socket or TLS connection could not be established.
    ConnectionFailed,
    /// Reading from or writing to the stream failed mid-fetch.
    IoFailure,
    /// No charset guess decoded the response body cleanly.
    UndecodableCharset,
}

impl FetchError {
    /// A short displayable description, rendered in place of page content.
    pub fn message(&self) -> (r: &'static str)
        ensures
            r@ == self.message_spec(),
    {
        proof {
            reveal_strlit("unsupported scheme");
            reveal_strlit("unsupported media type");
            reveal_strlit("malformed url");
            reveal_strlit("connection failed");
            reveal_strlit("io failure");
            reveal_strlit("cannot guess charset");
        }
        match self {
            FetchError::UnsupportedScheme => "unsupported scheme",
            FetchError::UnsupportedMediaType => "unsupported media type",
            FetchError::MalformedUrl => "malformed url",
            FetchError::ConnectionFailed => "connection failed",
            FetchError::IoFailure => "io failure",
            FetchError::UndecodableCharset => "cannot guess charset",
        }
    }

    pub open spec fn message_spec(&self) -> Seq<char> {
        match self {
            FetchError::UnsupportedScheme => "unsupported scheme"@,
            FetchError::UnsupportedMediaType => "unsupported media type"@,
            FetchError::MalformedUrl => "malformed url"@,
            FetchError::ConnectionFailed => "connection failed"@,
            FetchError::IoFailure => "io failure"@,
            FetchError::UndecodableCharset => "cannot guess charset"@,
        }
    }
}

} // verus!
