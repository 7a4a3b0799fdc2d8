//! Request framing and the in-memory `data:` transport: what is written to
//! the peer, and the response synthesized for an inline payload.

use vstd::prelude::*;
use vstd::string::StrSliceExecFns;
use vstd::string::StringExecFns;
use vstd::utf8::encode_utf8;
use vstd::utf8::valid_utf8;

use crate::errors::FetchError;
use crate::request::HttpVersion;
use crate::request::Request;
use crate::request::ReqView;
use crate::request::text_html;
use crate::response::Response;
use crate::response::RespView;
use crate::text::range_eq;
use crate::text::subvec_bytes;
use crate::text::to_chars;

verus! {

/// Connection handling options.
pub struct HttpOpt {
    pub keep_alive: bool,
}

impl Default for HttpOpt {
    fn default() -> (r: Self)
        ensures
            r.keep_alive == false,
    {
        HttpOpt { keep_alive: false }
    }
}

/// Issues requests: holds the protocol version, connection options and the
/// user agent named on every request.
pub struct HttpClient {
    pub version: HttpVersion,
    pub opt: HttpOpt,
    pub user_agent: String,
}

impl Default for HttpClient {
    fn default() -> (r: Self)
        ensures
            r.version == HttpVersion::V1_1,
            r.opt.keep_alive == false,
            r.user_agent@ == "Browser-Demo/0.0.1"@,
    {
        HttpClient {
            version: HttpVersion::V1_1,
            opt: HttpOpt { keep_alive: false },
            user_agent: "Browser-Demo/0.0.1".to_owned(),
        }
    }
}

pub open spec fn crlf() -> Seq<char> {
    seq!['\r', '\n']
}

/// One framed header line: `name: value` and the line terminator.
pub open spec fn header_line(e: (Seq<char>, Seq<char>)) -> Seq<char> {
    e.0 + seq![':', ' '] + e.1 + crlf()
}

/// The framed caller headers, in order.
pub open spec fn header_lines(hs: Seq<(Seq<char>, Seq<char>)>) -> Seq<char>
    decreases hs.len(),
{
    if hs.len() == 0 {
        Seq::empty()
    } else {
        header_line(hs[0]) + header_lines(hs.subrange(1, hs.len() as int))
    }
}

proof fn lemma_header_lines_take_step(hs: Seq<(Seq<char>, Seq<char>)>, i: int)
    requires
        0 <= i < hs.len(),
    ensures
        header_lines(hs.subrange(0, i + 1)) == header_lines(hs.subrange(0, i)) + header_line(
            hs[i],
        ),
    decreases i,
{
    if i == 0 {
        let s1 = hs.subrange(0, 1);
        assert(s1[0] == hs[0]);
        assert(s1.subrange(1, 1) =~= Seq::<(Seq<char>, Seq<char>)>::empty());
        assert(header_lines(Seq::<(Seq<char>, Seq<char>)>::empty()) == Seq::<char>::empty());
        assert(header_lines(s1) =~= header_line(hs[0]));
        assert(header_lines(hs.subrange(0, 0)) =~= Seq::<char>::empty());
    } else {
        let t = hs.subrange(1, hs.len() as int);
        lemma_header_lines_take_step(t, i - 1);
        assert(hs.subrange(0, i + 1)[0] == hs[0]);
        assert(hs.subrange(0, i + 1).subrange(1, i + 1) =~= t.subrange(0, i));
        assert(hs.subrange(0, i)[0] == hs[0]);
        assert(hs.subrange(0, i).subrange(1, i) =~= t.subrange(0, i - 1));
        assert(header_lines(hs.subrange(0, i + 1)) =~= header_lines(hs.subrange(0, i))
            + header_line(hs[i]));
    }
}

/// The full request text: request line, `Host`, `Connection: close` (for
/// HTTP/1.1 without keep-alive), `User-Agent`, the caller headers, and the
/// blank line that ends the head.
pub open spec fn request_text(
    version: HttpVersion,
    keep_alive: bool,
    user_agent: Seq<char>,
    req: ReqView,
) -> Seq<char> {
    "GET"@ + seq![' '] + req.path + seq![' '] + version.text_spec() + crlf() + "Host: "@ + req.host
        + crlf() + (if version == HttpVersion::V1_1 && !keep_alive {
        "Connection: close"@ + crlf()
    } else {
        Seq::empty()
    }) + "User-Agent: "@ + user_agent + crlf() + header_lines(req.headers) + crlf()
}

impl HttpClient {
    /// Frames the request head that is written to the peer.
    #[verifier::loop_isolation(false)]
    pub fn construct_request(&self, req: &Request) -> (r: String)
        ensures
            r@ == request_text(self.version, self.opt.keep_alive, self.user_agent@, req@),
    {
        let mut r = String::new();
        r.append("GET");
        r.append(" ");
        r.append(req.path.as_str());
        r.append(" ");
        r.append(self.version.text());
        r.append("\r\n");
        r.append("Host: ");
        r.append(req.host.as_str());
        r.append("\r\n");
        let is_11 = match self.version {
            HttpVersion::V1_0 => false,
            HttpVersion::V1_1 => true,
        };
        if is_11 && !self.opt.keep_alive {
            r.append("Connection: close");
            r.append("\r\n");
        }
        r.append("User-Agent: ");
        r.append(self.user_agent.as_str());
        r.append("\r\n");
        proof {
            reveal_strlit(" ");
            reveal_strlit("\r\n");
            assert(" "@ =~= seq![' ']);
            assert("\r\n"@ =~= crlf());
        }
        let ghost head = r@;
        proof {
            assert(req.headers.entries_view().subrange(0, 0) =~= Seq::<
                (Seq<char>, Seq<char>),
            >::empty());
            assert(header_lines(Seq::<(Seq<char>, Seq<char>)>::empty()) == Seq::<char>::empty());
            assert(r@ =~= head + header_lines(req.headers.entries_view().subrange(0, 0)));
        }
        let mut i: usize = 0;
        let n = req.headers.len();
        while i < n
            invariant
                n == req.headers.entries_view().len(),
                i <= n,
                r@ == head + header_lines(req.headers.entries_view().subrange(0, i as int)),
            decreases n - i,
        {
            r.append(req.headers.entries[i].0.as_str());
            r.append(": ");
            r.append(req.headers.entries[i].1.as_str());
            r.append("\r\n");
            proof {
                reveal_strlit(": ");
                assert(": "@ =~= seq![':', ' ']);
                lemma_header_lines_take_step(req.headers.entries_view(), i as int);
                assert((req.headers.entries_view()[i as int]).0 == req.headers.entries@[
                    i as int].0@);
                assert((req.headers.entries_view()[i as int]).1 == req.headers.entries@[
                    i as int].1@);
                assert(r@ =~= head + header_lines(
                    req.headers.entries_view().subrange(0, i + 1),
                ));
            }
            i += 1;
        }
        r.append("\r\n");
        proof {
            assert(header_lines(req.headers.entries_view().subrange(0, 0)) =~= Seq::<
                char,
            >::empty());
            assert(req.headers.entries_view().subrange(0, n as int) =~= req.headers.entries_view());
            assert(r@ =~= request_text(self.version, self.opt.keep_alive, self.user_agent@, req@));
        }
        r
    }
}

/// The body synthesized for an inline payload: the payload bytes wrapped in
/// an html/body element pair.
pub open spec fn html_wrap(body: Seq<u8>) -> Seq<u8> {
    encode_utf8("<html><body>"@) + body + encode_utf8("</body></html>"@)
}

/// Synthesizes the success response for a `data:` request: the inline payload
/// wrapped in an html/body element pair. Any mime type other than `text/html`
/// is an `UnsupportedMediaType` error, and a payload that is not valid UTF-8
/// text is an `UndecodableCharset` error (a resolved URL's payload, coming
/// from a string, always is).
pub fn parse_data(req: &Request, metadata: &str) -> (r: Result<Response, FetchError>)
    ensures
        metadata@ == text_html() && valid_utf8(req.body@) ==> (r matches Ok(resp) && resp@ == (
        RespView {
            version: Seq::<char>::empty(),
            status: 200u16,
            reason: Seq::<char>::empty(),
            headers: None,
            body: Some(html_wrap(req.body@)),
        }) && resp.wf()),
        metadata@ == text_html() && !valid_utf8(req.body@) ==> r == Err::<Response, FetchError>(
            FetchError::UndecodableCharset,
        ),
        metadata@ != text_html() ==> r == Err::<Response, FetchError>(
            FetchError::UnsupportedMediaType,
        ),
{
    let mv = to_chars(metadata);
    let th_pat: Vec<char> = vec!['t', 'e', 'x', 't', '/', 'h', 't', 'm', 'l'];
    proof {
        assert(th_pat@ =~= text_html());
    }
    if mv.len() == 9 && range_eq(&mv, 0, &th_pat) {
        assert(mv@.subrange(0, 9) =~= mv@);
        if crate::decode::try_from_utf8(req.body.as_slice()).is_none() {
            return Err(FetchError::UndecodableCharset);
        }
        let mut b = "<html><body>".as_bytes_vec();
        let mut mid = subvec_bytes(&req.body, 0, req.body.len());
        b.append(&mut mid);
        let mut tail = "</body></html>".as_bytes_vec();
        b.append(&mut tail);
        assert(b@ =~= html_wrap(req.body@));
        Ok(
            Response {
                version: String::new(),
                status: 200,
                reason: String::new(),
                headers: None,
                body: Some(b),
            },
        )
    } else {
        proof {
            if mv@ == text_html() {
                assert(mv@.subrange(0, 9) =~= mv@);
            }
        }
        Err(FetchError::UnsupportedMediaType)
    }
}

} // verus!
