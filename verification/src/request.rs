//! URL resolution: a URL string is interpreted into a structured request
//! descriptor holding scheme, host, port, path and, for `data:` URLs, the
//! inline payload.

use vstd::prelude::*;
use vstd::string::StrSliceExecFns;
use vstd::string::StringExecFns;
use vstd::utf8::encode_utf8;
use vstd::utf8::encode_utf8_valid_utf8;
use vstd::utf8::valid_utf8;

use crate::errors::FetchError;
use crate::headers::HeaderMap;
use crate::headers::insert_entry;
use crate::text::dec_str;
use crate::text::find_sub;
use crate::text::lower_chars;
use crate::text::lowercase_chars;
use crate::text::parse_u16;
use crate::text::parse_u16_spec;
use crate::text::range_eq;
use crate::text::split_once_seq;
use crate::text::string_of_chars;
use crate::text::to_chars;
use crate::text::u16_to_string;

verus! {

#[derive(Clone, Copy, Debug, PartialEq, Eq, Structural)]
pub enum HttpMethod {
    GET,
}

impl Default for HttpMethod {
    fn default() -> (r: Self)
        ensures
            r == HttpMethod::GET,
    {
        HttpMethod::GET
    }
}

impl HttpMethod {
    pub open spec fn text_spec(&self) -> Seq<char> {
        "GET"@
    }

    /// The method name as it appears on the request line.
    pub fn text(&self) -> (r: &'static str)
        ensures
            r@ == self.text_spec(),
    {
        "GET"
    }
}

#[derive(Clone, Copy, Debug, PartialEq, Eq, Structural)]
pub enum HttpVersion {
    V1_0,
    V1_1,
}

impl HttpVersion {
    pub open spec fn text_spec(&self) -> Seq<char> {
        match self {
            HttpVersion::V1_0 => "HTTP/1.0"@,
            HttpVersion::V1_1 => "HTTP/1.1"@,
        }
    }

    /// The protocol version as it appears on the request line.
    pub fn text(&self) -> (r: &'static str)
        ensures
            r@ == self.text_spec(),
    {
        match self {
            HttpVersion::V1_0 => "HTTP/1.0",
            HttpVersion::V1_1 => "HTTP/1.1",
        }
    }
}

/// The scheme of a resolved URL; `DATA` carries the mime type given in the
/// URL itself.
#[derive(Debug)]
pub enum HttpSchema {
    DATA(String),
    FILE,
    HTTPS,
    HTTP,
}

/// Spec-level mirror of `HttpSchema`.
pub enum SchemaView {
    Data(Seq<char>),
    File,
    Https,
    Http,
}

impl View for HttpSchema {
    type V = SchemaView;

    open spec fn view(&self) -> SchemaView {
        match self {
            HttpSchema::DATA(m) => SchemaView::Data(m@),
            HttpSchema::FILE => SchemaView::File,
            HttpSchema::HTTPS => SchemaView::Https,
            HttpSchema::HTTP => SchemaView::Http,
        }
    }
}

impl Default for HttpSchema {
    fn default() -> (r: Self)
        ensures
            r@ == SchemaView::Https,
    {
        HttpSchema::HTTPS
    }
}

impl HttpSchema {
    pub open spec fn text_spec(&self) -> Seq<char> {
        match self {
            HttpSchema::DATA(m) => "data:"@ + m@,
            HttpSchema::FILE => "file"@,
            HttpSchema::HTTP => "http"@,
            HttpSchema::HTTPS => "https"@,
        }
    }

    /// The scheme written as it appears at the front of a URL.
    pub fn text(&self) -> (r: String)
        ensures
            r@ == self.text_spec(),
    {
        match self {
            HttpSchema::DATA(m) => {
                let mut r = String::new();
                r.append("data:");
                r.append(m.as_str());
                r
            },
            HttpSchema::FILE => "file".to_owned(),
            HttpSchema::HTTP => "http".to_owned(),
            HttpSchema::HTTPS => "https".to_owned(),
        }
    }

    /// The scheme a scheme name denotes: `file`, `http` or `https`; anything
    /// else is unsupported.
    pub open spec fn from_name_spec(s: Seq<char>) -> Result<SchemaView, FetchError> {
        if s == file_name() {
            Ok(SchemaView::File)
        } else if s == http_name() {
            Ok(SchemaView::Http)
        } else if s == https_name() {
            Ok(SchemaView::Https)
        } else {
            Err(FetchError::UnsupportedScheme)
        }
    }

    /// Recognizes the scheme names `file`, `http` and `https`.
    pub fn try_from(s: &str) -> (r: Result<HttpSchema, FetchError>)
        ensures
            match r {
                Ok(schema) => HttpSchema::from_name_spec(s@) == Ok::<SchemaView, FetchError>(
                    schema@,
                ),
                Err(e) => HttpSchema::from_name_spec(s@) == Err::<SchemaView, FetchError>(e),
            },
    {
        let v = to_chars(s);
        let file_pat: Vec<char> = vec!['f', 'i', 'l', 'e'];
        let http_pat: Vec<char> = vec!['h', 't', 't', 'p'];
        let https_pat: Vec<char> = vec!['h', 't', 't', 'p', 's'];
        proof {
            assert(file_pat@ =~= file_name());
            assert(http_pat@ =~= http_name());
            assert(https_pat@ =~= https_name());
        }
        if v.len() == 4 && range_eq(&v, 0, &file_pat) {
            assert(v@.subrange(0, 4) =~= v@);
            Ok(HttpSchema::FILE)
        } else if v.len() == 4 && range_eq(&v, 0, &http_pat) {
            assert(v@.subrange(0, 4) =~= v@);
            Ok(HttpSchema::HTTP)
        } else if v.len() == 5 && range_eq(&v, 0, &https_pat) {
            assert(v@.subrange(0, 5) =~= v@);
            Ok(HttpSchema::HTTPS)
        } else {
            proof {
                if v@ == file_name() {
                    assert(v@.subrange(0, 4) =~= v@);
                }
                if v@ == http_name() {
                    assert(v@.subrange(0, 4) =~= v@);
                }
                if v@ == https_name() {
                    assert(v@.subrange(0, 5) =~= v@);
                }
            }
            Err(FetchError::UnsupportedScheme)
        }
    }
}

// Scheme and separator names, written as explicit character sequences so that
// their length and contents are immediate in proofs.
pub open spec fn data_prefix() -> Seq<char> {
    seq!['d', 'a', 't', 'a', ':']
}

pub open spec fn scheme_sep() -> Seq<char> {
    seq![':', '/', '/']
}

pub open spec fn text_html() -> Seq<char> {
    seq!['t', 'e', 'x', 't', '/', 'h', 't', 'm', 'l']
}

pub open spec fn file_name() -> Seq<char> {
    seq!['f', 'i', 'l', 'e']
}

pub open spec fn http_name() -> Seq<char> {
    seq!['h', 't', 't', 'p']
}

pub open spec fn https_name() -> Seq<char> {
    seq!['h', 't', 't', 'p', 's']
}

pub open spec fn starts_with_seq<A>(s: Seq<A>, p: Seq<A>) -> bool {
    s.len() >= p.len() && s.subrange(0, p.len() as int) == p
}

proof fn lemma_scheme_names_distinct()
    ensures
        file_name() != http_name(),
        file_name() != https_name(),
        http_name() != https_name(),
{
    assert(file_name()[0] != http_name()[0]);
    assert(file_name().len() != https_name().len());
    assert(http_name().len() != https_name().len());
}

/// The scheme's default port: 80 for `http`, 443 otherwise.
pub open spec fn default_port(schema: SchemaView) -> u16 {
    match schema {
        SchemaView::Http => 80,
        _ => 443,
    }
}

/// Spec-level request descriptor.
#[verifier::ext_equal]
pub ghost struct ReqView {
    pub method: HttpMethod,
    pub schema: SchemaView,
    pub host: Seq<char>,
    pub port: u16,
    pub path: Seq<char>,
    pub body: Seq<u8>,
    pub headers: Seq<(Seq<char>, Seq<char>)>,
}

/// What resolving a URL yields.
///
/// - `data:` URLs split at the first comma into a mime type (default
///   `text/html` when there is no comma) and an inline payload; a mime type
///   other than `text/html` is an `UnsupportedMediaType` error.
/// - Otherwise the URL splits at the first `://` into scheme and remainder
///   (default scheme `https` when there is no `://`). `file` takes the
///   remainder verbatim as a path; `http`/`https` split the remainder at the
///   first `/` into authority and path and the authority at the first `:`
///   into host and port text. The port falls back to the scheme default when
///   absent or unparseable, and the path is prefixed with `/`.
pub open spec fn resolve_spec(url: Seq<char>) -> Result<ReqView, FetchError> {
    if starts_with_seq(url, data_prefix()) {
        let rest = url.subrange(5, url.len() as int);
        let pair = match split_once_seq(rest, seq![',']) {
            Some(p) => p,
            None => (text_html(), rest),
        };
        if pair.0 == text_html() {
            Ok(
                ReqView {
                    method: HttpMethod::GET,
                    schema: SchemaView::Data(pair.0),
                    host: Seq::empty(),
                    port: 0,
                    path: Seq::empty(),
                    body: encode_utf8(pair.1),
                    headers: Seq::empty(),
                },
            )
        } else {
            Err(FetchError::UnsupportedMediaType)
        }
    } else {
        let pair = match split_once_seq(url, scheme_sep()) {
            Some(p) => p,
            None => (https_name(), url),
        };
        let scheme = pair.0;
        let rest = pair.1;
        match HttpSchema::from_name_spec(scheme) {
            Err(e) => Err(e),
            Ok(SchemaView::File) => Ok(
                ReqView {
                    method: HttpMethod::GET,
                    schema: SchemaView::File,
                    host: Seq::empty(),
                    port: 0,
                    path: rest,
                    body: Seq::empty(),
                    headers: Seq::empty(),
                },
            ),
            Ok(schema) => {
                let split_path = match split_once_seq(rest, seq!['/']) {
                    Some(p) => p,
                    None => (rest, Seq::<char>::empty()),
                };
                let authority = split_path.0;
                let split_host = match split_once_seq(authority, seq![':']) {
                    Some(p) => p,
                    None => (authority, Seq::<char>::empty()),
                };
                let port = if split_host.1.len() > 0 {
                    match parse_u16_spec(split_host.1) {
                        Some(p) => p,
                        None => default_port(schema),
                    }
                } else {
                    default_port(schema)
                };
                Ok(
                    ReqView {
                        method: HttpMethod::GET,
                        schema: schema,
                        host: split_host.0,
                        port: port,
                        path: seq!['/'] + split_path.1,
                        body: Seq::empty(),
                        headers: Seq::empty(),
                    },
                )
            },
        }
    }
}

/// A resolved request descriptor.
#[derive(Debug)]
pub struct Request {
    pub method: HttpMethod,
    pub schema: HttpSchema,
    pub host: String,
    pub port: u16,
    pub path: String,
    pub body: Vec<u8>,
    pub headers: HeaderMap,
}

impl View for Request {
    type V = ReqView;

    open spec fn view(&self) -> ReqView {
        ReqView {
            method: self.method,
            schema: self.schema@,
            host: self.host@,
            port: self.port,
            path: self.path@,
            body: self.body@,
            headers: self.headers.entries_view(),
        }
    }
}

impl Request {
    /// The header map holds no duplicate names and the inline payload is
    /// valid UTF-8 (it always is for a resolved URL, whose payload comes
    /// from a string).
    pub open spec fn wf(&self) -> bool {
        &&& self.headers.wf()
        &&& valid_utf8(self.body@)
    }

    /// Resolves a URL into a request descriptor, as `resolve_spec` says.
    pub fn try_new(method: HttpMethod, url: &str) -> (r: Result<Request, FetchError>)
        ensures
            match r {
                Ok(req) => resolve_spec(url@) == Ok::<ReqView, FetchError>(req@) && req.wf(),
                Err(e) => resolve_spec(url@) == Err::<ReqView, FetchError>(e),
            },
    {
        let v = to_chars(url);
        let n = v.len();
        let data_pat: Vec<char> = vec!['d', 'a', 't', 'a', ':'];
        proof {
            assert(data_pat@ =~= data_prefix());
        }
        if n >= 5 && range_eq(&v, 0, &data_pat) {
            Self::resolve_data(url, &v)
        } else {
            assert(!starts_with_seq(url@, data_prefix()));
            Self::resolve_remote(method, url, &v)
        }
    }

    /// The `data:` arm of resolution.
    fn resolve_data(url: &str, v: &Vec<char>) -> (r: Result<Request, FetchError>)
        requires
            v@ == url@,
            starts_with_seq(url@, data_prefix()),
        ensures
            match r {
                Ok(req) => resolve_spec(url@) == Ok::<ReqView, FetchError>(req@) && req.wf(),
                Err(e) => resolve_spec(url@) == Err::<ReqView, FetchError>(e),
            },
    {
        let n = v.len();
        let ghost rest = url@.subrange(5, url@.len() as int);
        let rest_v = crate::text::subvec(v, 5, n);
        let comma_pat: Vec<char> = vec![','];
        let th_pat: Vec<char> = vec!['t', 'e', 'x', 't', '/', 'h', 't', 'm', 'l'];
        proof {
            assert(comma_pat@ =~= seq![',']);
            assert(th_pat@ =~= text_html());
        }
        match find_sub(&rest_v, &comma_pat) {
            Some(ci) => {
                proof {
                    crate::text::lemma_find_from_some(rest_v@, comma_pat@, 0, ci as int);
                }
                let ghost mime = rest.subrange(0, ci as int);
                let ghost payload = rest.subrange(ci + 1, rest.len() as int);
                assert(split_once_seq(rest, seq![',']) == Some((mime, payload)));
                let is_html = ci == 9 && range_eq(&rest_v, 0, &th_pat);
                proof {
                    if ci == 9 {
                        assert(rest_v@.subrange(0, 9) =~= mime);
                    }
                    if is_html {
                        assert(mime == text_html());
                    } else {
                        assert(mime != text_html());
                    }
                }
                if is_html {
                    let mime_str = url.substring_char(5, 5 + ci);
                    let payload_str = url.substring_char(5 + ci + 1, n);
                    let body = payload_str.as_bytes_vec();
                    proof {
                        assert(mime_str@ =~= mime);
                        assert(payload_str@ =~= payload);
                        encode_utf8_valid_utf8(payload);
                    }
                    let req = Request {
                        method: HttpMethod::GET,
                        schema: HttpSchema::DATA(mime_str.to_owned()),
                        host: String::new(),
                        port: 0,
                        path: String::new(),
                        body: body,
                        headers: HeaderMap::new(),
                    };
                    assert(req@ =~= resolve_spec(url@)->Ok_0);
                    Ok(req)
                } else {
                    Err(FetchError::UnsupportedMediaType)
                }
            },
            None => {
                // No comma: the mime type defaults to text/html and the whole
                // remainder is the payload.
                assert(split_once_seq(rest, seq![',']) is None);
                let payload_str = url.substring_char(5, n);
                let body = payload_str.as_bytes_vec();
                proof {
                    reveal_strlit("text/html");
                    assert("text/html"@ =~= text_html());
                    assert(payload_str@ =~= rest);
                    encode_utf8_valid_utf8(rest);
                }
                let req = Request {
                    method: HttpMethod::GET,
                    schema: HttpSchema::DATA("text/html".to_owned()),
                    host: String::new(),
                    port: 0,
                    path: String::new(),
                    body: body,
                    headers: HeaderMap::new(),
                };
                assert(req@ =~= resolve_spec(url@)->Ok_0);
                Ok(req)
            },
        }
    }

    /// The `file`/`http`/`https` arm of resolution.
    fn resolve_remote(method: HttpMethod, url: &str, v: &Vec<char>) -> (r: Result<
        Request,
        FetchError,
    >)
        requires
            v@ == url@,
            !starts_with_seq(url@, data_prefix()),
        ensures
            match r {
                Ok(req) => resolve_spec(url@) == Ok::<ReqView, FetchError>(req@) && req.wf(),
                Err(e) => resolve_spec(url@) == Err::<ReqView, FetchError>(e),
            },
    {
        let n = v.len();
        let sep_pat: Vec<char> = vec![':', '/', '/'];
        proof {
            assert(sep_pat@ =~= scheme_sep());
            lemma_scheme_names_distinct();
        }
        // Split off the scheme; default to https when no "://" is present.
        match find_sub(v, &sep_pat) {
            Some(si) => {
                proof {
                    crate::text::lemma_find_from_some(v@, sep_pat@, 0, si as int);
                }
                let ghost scheme = url@.subrange(0, si as int);
                assert(split_once_seq(url@, scheme_sep()) == Some(
                    (scheme, url@.subrange(si + 3, url@.len() as int)),
                ));
                let file_pat: Vec<char> = vec!['f', 'i', 'l', 'e'];
                let http_pat: Vec<char> = vec!['h', 't', 't', 'p'];
                let https_pat: Vec<char> = vec!['h', 't', 't', 'p', 's'];
                proof {
                    assert(file_pat@ =~= file_name());
                    assert(http_pat@ =~= http_name());
                    assert(https_pat@ =~= https_name());
                    if si == 4 {
                        assert(v@.subrange(0, 4) =~= scheme);
                    }
                    if si == 5 {
                        assert(v@.subrange(0, 5) =~= scheme);
                    }
                }
                if si == 4 && range_eq(v, 0, &file_pat) {
                    assert(scheme == file_name());
                    let path_str = url.substring_char(si + 3, n);
                    assert(path_str@ =~= url@.subrange(si + 3, url@.len() as int));
                    let req = Request {
                        method: HttpMethod::GET,
                        schema: HttpSchema::FILE,
                        host: String::new(),
                        port: 0,
                        path: path_str.to_owned(),
                        body: Vec::new(),
                        headers: HeaderMap::new(),
                    };
                    assert(req@ =~= resolve_spec(url@)->Ok_0);
                    Ok(req)
                } else if si == 4 && range_eq(v, 0, &http_pat) {
                    assert(scheme == http_name());
                    Self::resolve_authority(method, url, v, si + 3, true)
                } else if si == 5 && range_eq(v, 0, &https_pat) {
                    assert(scheme == https_name());
                    Self::resolve_authority(method, url, v, si + 3, false)
                } else {
                    proof {
                        assert(scheme.len() == si);
                        if si == 4 {
                            assert(scheme != https_name()) by {
                                assert(https_name().len() == 5);
                            }
                        } else if si == 5 {
                            assert(scheme != file_name()) by {
                                assert(file_name().len() == 4);
                            }
                            assert(scheme != http_name()) by {
                                assert(http_name().len() == 4);
                            }
                        } else {
                            assert(scheme != file_name()) by {
                                assert(file_name().len() == 4);
                            }
                            assert(scheme != http_name()) by {
                                assert(http_name().len() == 4);
                            }
                            assert(scheme != https_name()) by {
                                assert(https_name().len() == 5);
                            }
                        }
                    }
                    Err(FetchError::UnsupportedScheme)
                }
            },
            None => {
                assert(split_once_seq(url@, scheme_sep()) is None);
                assert(url@.subrange(0, url@.len() as int) =~= url@);
                Self::resolve_authority(method, url, v, 0, false)
            },
        }
    }

    /// Parses authority and path of an `http`/`https` URL, starting at `rlo`.
    #[verifier::rlimit(40)]
    fn resolve_authority(method: HttpMethod, url: &str, v: &Vec<char>, rlo: usize, is_http: bool)
        -> (r: Result<Request, FetchError>)
        requires
            v@ == url@,
            rlo <= v@.len(),
            !starts_with_seq(url@, data_prefix()),
            ({
                let pair = match split_once_seq(url@, scheme_sep()) {
                    Some(p) => p,
                    None => (https_name(), url@),
                };
                &&& pair.1 == url@.subrange(rlo as int, url@.len() as int)
                &&& HttpSchema::from_name_spec(pair.0) == Ok::<SchemaView, FetchError>(
                    if is_http {
                        SchemaView::Http
                    } else {
                        SchemaView::Https
                    },
                )
            }),
        ensures
            match r {
                Ok(req) => resolve_spec(url@) == Ok::<ReqView, FetchError>(req@) && req.wf(),
                Err(e) => resolve_spec(url@) == Err::<ReqView, FetchError>(e),
            },
    {
        let n = v.len();
        let ghost rest = url@.subrange(rlo as int, url@.len() as int);
        let ghost schema_v = if is_http {
            SchemaView::Http
        } else {
            SchemaView::Https
        };
        let rest_v = crate::text::subvec(v, rlo, n);
        assert(rest_v@ == rest);
        let slash_pat: Vec<char> = vec!['/'];
        let colon_pat: Vec<char> = vec![':'];
        proof {
            assert(slash_pat@ =~= seq!['/']);
            assert(colon_pat@ =~= seq![':']);
        }
        // Split the remainder at the first '/' into authority and path.
        let (auth_hi, path_lo): (usize, usize) = match find_sub(&rest_v, &slash_pat) {
            Some(pi) => {
                proof {
                    crate::text::lemma_find_from_some(rest_v@, slash_pat@, 0, pi as int);
                }
                assert(split_once_seq(rest, seq!['/']) == Some(
                    (rest.subrange(0, pi as int), rest.subrange(pi + 1, rest.len() as int)),
                ));
                (pi, pi + 1)
            },
            None => {
                assert(split_once_seq(rest, seq!['/']) is None);
                assert(rest.subrange(0, rest.len() as int) =~= rest);
                assert(rest.subrange(rest.len() as int, rest.len() as int) =~= Seq::<
                    char,
                >::empty());
                (rest_v.len(), rest_v.len())
            },
        };
        let ghost authority = rest.subrange(0, auth_hi as int);
        let ghost raw_path = rest.subrange(path_lo as int, rest.len() as int);
        let auth_v = crate::text::subvec(&rest_v, 0, auth_hi);
        assert(auth_v@ == authority);
        // Split the authority at the first ':' into host and port text.
        let (host_hi, port_lo): (usize, usize) = match find_sub(&auth_v, &colon_pat) {
            Some(hi) => {
                proof {
                    crate::text::lemma_find_from_some(auth_v@, colon_pat@, 0, hi as int);
                }
                assert(split_once_seq(authority, seq![':']) == Some(
                    (
                        authority.subrange(0, hi as int),
                        authority.subrange(hi + 1, authority.len() as int),
                    ),
                ));
                (hi, hi + 1)
            },
            None => {
                assert(split_once_seq(authority, seq![':']) is None);
                assert(authority.subrange(0, authority.len() as int) =~= authority);
                assert(authority.subrange(authority.len() as int, authority.len() as int) =~= Seq::<
                    char,
                >::empty());
                (auth_v.len(), auth_v.len())
            },
        };
        let ghost host = authority.subrange(0, host_hi as int);
        let ghost port_text = authority.subrange(port_lo as int, authority.len() as int);
        let default: u16 = if is_http {
            80
        } else {
            443
        };
        assert(default == default_port(schema_v));
        let port: u16 = if port_lo < auth_v.len() {
            match parse_u16(&auth_v, port_lo, auth_v.len()) {
                Some(p) => {
                    assert(auth_v@.subrange(port_lo as int, auth_v@.len() as int) =~= port_text);
                    p
                },
                None => {
                    assert(auth_v@.subrange(port_lo as int, auth_v@.len() as int) =~= port_text);
                    default
                },
            }
        } else {
            assert(port_text.len() == 0);
            default
        };
        let host_str = url.substring_char(rlo, rlo + host_hi);
        proof {
            assert(host_str@ =~= host);
        }
        let mut path = String::new();
        path.append("/");
        let path_tail = url.substring_char(rlo + path_lo, n);
        path.append(path_tail);
        proof {
            reveal_strlit("/");
            assert("/"@ =~= seq!['/']);
            assert(path_tail@ =~= raw_path);
            assert(path@ =~= seq!['/'] + raw_path);
        }
        let req = Request {
            method: method,
            schema: if is_http {
                HttpSchema::HTTP
            } else {
                HttpSchema::HTTPS
            },
            host: host_str.to_owned(),
            port: port,
            path: path,
            body: Vec::new(),
            headers: HeaderMap::new(),
        };
        proof {
            match method {
                HttpMethod::GET => {
                    assert(method == HttpMethod::GET);
                },
            }
        }
        assert(req@ =~= resolve_spec(url@)->Ok_0);
        Ok(req)
    }

    /// The `host:port` form used to open the connection.
    pub fn get_url(&self) -> (r: String)
        ensures
            r@ == self.host@ + seq![':'] + dec_str(self.port as int),
    {
        let mut r = self.host.clone();
        r.append(":");
        let p = u16_to_string(self.port);
        r.append(p.as_str());
        proof {
            reveal_strlit(":");
            assert(":"@ =~= seq![':']);
            assert(r@ =~= self.host@ + seq![':'] + dec_str(self.port as int));
        }
        r
    }

    /// Stores a caller header; the name is lower-cased (ASCII) first.
    pub fn set_header(&mut self, k: &str, v: &str)
        requires
            old(self).headers.wf(),
        ensures
            final(self).headers.wf(),
            final(self).headers.entries_view() == insert_entry(
                old(self).headers.entries_view(),
                lower_chars(k@),
                v@,
            ),
            final(self).method == old(self).method,
            final(self).schema == old(self).schema,
            final(self).host == old(self).host,
            final(self).port == old(self).port,
            final(self).path == old(self).path,
            final(self).body == old(self).body,
    {
        let kc = to_chars(k);
        let lk = lowercase_chars(&kc);
        let ks = string_of_chars(&lk);
        self.headers.insert(ks, v.to_owned());
    }
}

// ---------------------------------------------------------------------------
// Resolver recovery: well-formed URLs come back out exactly
// ---------------------------------------------------------------------------
proof fn lemma_scheme_name_chars()
    ensures
        forall|i: int|
            0 <= i < http_name().len() ==> #[trigger] http_name()[i] != ':' && http_name()[i]
                != '/',
        forall|i: int|
            0 <= i < https_name().len() ==> #[trigger] https_name()[i] != ':' && https_name()[i]
                != '/',
{
    assert forall|i: int|
        0 <= i < http_name().len() implies #[trigger] http_name()[i] != ':' && http_name()[i]
        != '/' by {
        if i == 0 {
            assert(http_name()[0] == 'h');
        } else if i == 1 {
            assert(http_name()[1] == 't');
        } else if i == 2 {
            assert(http_name()[2] == 't');
        } else {
            assert(http_name()[3] == 'p');
        }
    }
    assert forall|i: int|
        0 <= i < https_name().len() implies #[trigger] https_name()[i] != ':' && https_name()[i]
        != '/' by {
        if i == 0 {
            assert(https_name()[0] == 'h');
        } else if i == 1 {
            assert(https_name()[1] == 't');
        } else if i == 2 {
            assert(https_name()[2] == 't');
        } else if i == 3 {
            assert(https_name()[3] == 'p');
        } else {
            assert(https_name()[4] == 's');
        }
    }
}

/// A URL assembled as `scheme://tail` (scheme being `http` or `https`) is no
/// `data:` URL, and splits at its `://` back into scheme and tail.
proof fn lemma_scheme_split(scheme: Seq<char>, tail: Seq<char>)
    requires
        scheme == http_name() || scheme == https_name(),
    ensures
        !starts_with_seq(scheme + scheme_sep() + tail, data_prefix()),
        split_once_seq(scheme + scheme_sep() + tail, scheme_sep()) == Some((scheme, tail)),
{
    lemma_scheme_name_chars();
    let url = scheme + scheme_sep() + tail;
    let ghost el = scheme.len() as int;
    assert(url[0] == scheme[0]);
    assert(scheme[0] == 'h');
    if starts_with_seq(url, data_prefix()) {
        assert(url.subrange(0, 5)[0] == url[0]);
        assert(data_prefix()[0] == 'd');
    }
    assert(url.subrange(el, el + 3) =~= scheme_sep()) by {
        assert(url[el] == ':');
        assert(url[el + 1] == '/');
        assert(url[el + 2] == '/');
    }
    assert forall|m: int| 0 <= m < el implies #[trigger] url.subrange(m, m + 3) != scheme_sep() by {
        assert(url.subrange(m, m + 3)[0] == url[m]);
        assert(url[m] == scheme[m]);
        assert(scheme_sep()[0] == ':');
    }
    crate::text::lemma_find_from_at(url, scheme_sep(), 0, el);
    assert(url.subrange(0, el) =~= scheme);
    assert(url.subrange(el + 3, url.len() as int) =~= tail);
}

/// The resolver recovers a well-formed `scheme://host:port/path` URL
/// exactly: the host and the `/`-prefixed path come back verbatim, and the
/// port is the port text's value, or the scheme default when that text is
/// empty or unparseable.
pub proof fn lemma_resolve_recovers_with_port(
    scheme: Seq<char>,
    host: Seq<char>,
    ptext: Seq<char>,
    path: Seq<char>,
)
    requires
        scheme == http_name() || scheme == https_name(),
        forall|i: int| 0 <= i < host.len() ==> #[trigger] host[i] != ':' && host[i] != '/',
        forall|i: int| 0 <= i < ptext.len() ==> #[trigger] ptext[i] != ':' && ptext[i] != '/',
    ensures
        ({
            let url = scheme + scheme_sep() + host + seq![':'] + ptext + seq!['/'] + path;
            let schema = if scheme == http_name() {
                SchemaView::Http
            } else {
                SchemaView::Https
            };
            resolve_spec(url) == Ok::<ReqView, FetchError>(
                ReqView {
                    method: HttpMethod::GET,
                    schema: schema,
                    host: host,
                    port: match parse_u16_spec(ptext) {
                        Some(p) => p,
                        None => default_port(schema),
                    },
                    path: seq!['/'] + path,
                    body: Seq::empty(),
                    headers: Seq::empty(),
                },
            )
        }),
{
    lemma_scheme_names_distinct();
    let auth = host + seq![':'] + ptext;
    let tail = auth + seq!['/'] + path;
    let url = scheme + scheme_sep() + host + seq![':'] + ptext + seq!['/'] + path;
    assert(url =~= scheme + scheme_sep() + tail);
    lemma_scheme_split(scheme, tail);
    let hl = host.len() as int;
    let si = auth.len() as int;
    // The first '/' of the tail stands right after the authority.
    assert(tail[si] == '/');
    assert forall|m: int| 0 <= m < si implies #[trigger] tail.subrange(m, m + 1) != seq!['/'] by {
        assert(tail[m] == auth[m]);
        if m < hl {
            assert(auth[m] == host[m]);
        } else if m == hl {
            assert(auth[m] == ':');
        } else {
            assert(auth[m] == ptext[m - hl - 1]);
        }
        crate::text::lemma_singleton_match(tail, '/', m);
    }
    assert(tail.subrange(si, si + 1) =~= seq!['/']);
    crate::text::lemma_find_from_at(tail, seq!['/'], 0, si);
    assert(tail.subrange(0, si) =~= auth);
    assert(tail.subrange(si + 1, tail.len() as int) =~= path);
    // The first ':' of the authority stands right after the host.
    assert(auth[hl] == ':');
    assert forall|m: int| 0 <= m < hl implies #[trigger] auth.subrange(m, m + 1) != seq![':'] by {
        assert(auth[m] == host[m]);
        crate::text::lemma_singleton_match(auth, ':', m);
    }
    assert(auth.subrange(hl, hl + 1) =~= seq![':']);
    crate::text::lemma_find_from_at(auth, seq![':'], 0, hl);
    assert(auth.subrange(0, hl) =~= host);
    assert(auth.subrange(hl + 1, auth.len() as int) =~= ptext);
    if ptext.len() == 0 {
        assert(parse_u16_spec(ptext) is None);
    }
    assert(resolve_spec(url)->Ok_0 =~= ReqView {
        method: HttpMethod::GET,
        schema: if scheme == http_name() {
            SchemaView::Http
        } else {
            SchemaView::Https
        },
        host: host,
        port: match parse_u16_spec(ptext) {
            Some(p) => p,
            None => default_port(
                if scheme == http_name() {
                    SchemaView::Http
                } else {
                    SchemaView::Https
                },
            ),
        },
        path: seq!['/'] + path,
        body: Seq::empty(),
        headers: Seq::empty(),
    });
}

/// The resolver recovers a well-formed `scheme://host/path` URL exactly,
/// with the scheme's default port standing in for the absent one.
pub proof fn lemma_resolve_recovers_without_port(
    scheme: Seq<char>,
    host: Seq<char>,
    path: Seq<char>,
)
    requires
        scheme == http_name() || scheme == https_name(),
        forall|i: int| 0 <= i < host.len() ==> #[trigger] host[i] != ':' && host[i] != '/',
    ensures
        ({
            let url = scheme + scheme_sep() + host + seq!['/'] + path;
            let schema = if scheme == http_name() {
                SchemaView::Http
            } else {
                SchemaView::Https
            };
            resolve_spec(url) == Ok::<ReqView, FetchError>(
                ReqView {
                    method: HttpMethod::GET,
                    schema: schema,
                    host: host,
                    port: default_port(schema),
                    path: seq!['/'] + path,
                    body: Seq::empty(),
                    headers: Seq::empty(),
                },
            )
        }),
{
    lemma_scheme_names_distinct();
    let tail = host + seq!['/'] + path;
    let url = scheme + scheme_sep() + host + seq!['/'] + path;
    assert(url =~= scheme + scheme_sep() + tail);
    lemma_scheme_split(scheme, tail);
    let hl = host.len() as int;
    // The first '/' of the tail stands right after the host.
    assert(tail[hl] == '/');
    assert forall|m: int| 0 <= m < hl implies #[trigger] tail.subrange(m, m + 1) != seq!['/'] by {
        assert(tail[m] == host[m]);
        crate::text::lemma_singleton_match(tail, '/', m);
    }
    assert(tail.subrange(hl, hl + 1) =~= seq!['/']);
    crate::text::lemma_find_from_at(tail, seq!['/'], 0, hl);
    assert(tail.subrange(0, hl) =~= host);
    assert(tail.subrange(hl + 1, tail.len() as int) =~= path);
    // The authority is the bare host: it holds no ':' at all.
    assert forall|m: int|
        0 <= m && m + 1 <= host.len() implies #[trigger] host.subrange(m, m + 1) != seq![':'] by {
        crate::text::lemma_singleton_match(host, ':', m);
    }
    crate::text::lemma_find_from_all_no(host, seq![':'], 0);
    assert(resolve_spec(url)->Ok_0 =~= ReqView {
        method: HttpMethod::GET,
        schema: if scheme == http_name() {
            SchemaView::Http
        } else {
            SchemaView::Https
        },
        host: host,
        port: default_port(
            if scheme == http_name() {
                SchemaView::Http
            } else {
                SchemaView::Https
            },
        ),
        path: seq!['/'] + path,
        body: Seq::empty(),
        headers: Seq::empty(),
    });
}

} // verus!
