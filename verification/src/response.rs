//! Response parsing: one status line, header lines until a blank line, then
//! the raw body until the end of the received bytes.

use vstd::prelude::*;
use vstd::utf8::decode_utf8;
use vstd::utf8::encode_utf8;
use vstd::utf8::valid_utf8;

use crate::decode::try_from_utf8;
use crate::errors::FetchError;
use crate::headers::HeaderMap;
use crate::headers::insert_entry;
use crate::text::find_from;
use crate::text::find_byte;
use crate::text::find_sub;
use crate::text::lower_chars;
use crate::text::lowercase_chars;
use crate::text::parse_u16;
use crate::text::parse_u16_spec;
use crate::text::split_once_seq;
use crate::text::string_of_chars;
use crate::text::string_of_range;
use crate::text::subvec;
use crate::text::subvec_bytes;
use crate::text::to_chars;
use crate::text::trim_chars;
use crate::text::trim_spec;

verus! {

/// A structured response: protocol version, numeric status, the reason text
/// from the status line, headers (success responses only) and raw body bytes.
#[derive(Debug)]
pub struct Response {
    pub version: String,
    pub status: u16,
    pub reason: String,
    pub headers: Option<HeaderMap>,
    pub body: Option<Vec<u8>>,
}

/// Spec-level response message.
#[verifier::ext_equal]
pub ghost struct RespView {
    pub version: Seq<char>,
    pub status: u16,
    pub reason: Seq<char>,
    pub headers: Option<Seq<(Seq<char>, Seq<char>)>>,
    pub body: Option<Seq<u8>>,
}

impl View for Response {
    type V = RespView;

    open spec fn view(&self) -> RespView {
        RespView {
            version: self.version@,
            status: self.status,
            reason: self.reason@,
            headers: match self.headers {
                Some(h) => Some(h.entries_view()),
                None => None,
            },
            body: match self.body {
                Some(b) => Some(b@),
                None => None,
            },
        }
    }
}

impl Response {
    /// The header map, when present, holds no duplicate names.
    pub open spec fn wf(&self) -> bool {
        match self.headers {
            Some(h) => h.wf(),
            None => true,
        }
    }

    /// The response a successful local read synthesizes: status 200, no
    /// headers, the bytes as the body.
    pub fn from_file_bytes(bytes: Vec<u8>) -> (r: Response)
        ensures
            r@ == (RespView {
                version: Seq::<char>::empty(),
                status: 200u16,
                reason: Seq::<char>::empty(),
                headers: None,
                body: Some(bytes@),
            }),
            r.wf(),
    {
        Response {
            version: String::new(),
            status: 200,
            reason: String::new(),
            headers: None,
            body: Some(bytes),
        }
    }
}

impl Default for Response {
    /// An empty success response: status 200, nothing else set.
    fn default() -> (r: Response)
        ensures
            r@ == (RespView {
                version: Seq::<char>::empty(),
                status: 200u16,
                reason: Seq::<char>::empty(),
                headers: None,
                body: None,
            }),
            r.wf(),
    {
        Response {
            version: String::new(),
            status: 200,
            reason: String::new(),
            headers: None,
            body: None,
        }
    }
}

// ---------------------------------------------------------------------------
// The wire format, as spec functions
// ---------------------------------------------------------------------------
/// A line's bytes with a single trailing carriage return removed.
pub open spec fn strip_cr(line: Seq<u8>) -> Seq<u8> {
    if line.len() > 0 && line.last() == 13 {
        line.drop_last()
    } else {
        line
    }
}

/// The line starting at `pos`: its bytes without the terminator, and the
/// position just after the line feed (or the end of input).
pub open spec fn line_at(bytes: Seq<u8>, pos: int) -> (Seq<u8>, int) {
    match find_from(bytes, seq![10u8], pos) {
        Some(j) => (strip_cr(bytes.subrange(pos, j)), j + 1),
        None => (strip_cr(bytes.subrange(pos, bytes.len() as int)), bytes.len() as int),
    }
}

/// What one header line denotes: it must be UTF-8 and hold a colon; the name
/// (before the colon) is lower-cased, the value is trimmed.
pub open spec fn header_pair(line: Seq<u8>) -> Result<(Seq<char>, Seq<char>), FetchError> {
    if !valid_utf8(line) {
        Err(FetchError::MalformedUrl)
    } else {
        match split_once_seq(decode_utf8(line), seq![':']) {
            None => Err(FetchError::MalformedUrl),
            Some(p) => Ok((lower_chars(p.0), trim_spec(p.1))),
        }
    }
}

/// Reads header lines from `pos` until a blank line (or the end of input),
/// folding each into `acc`; yields the entries and the remaining bytes, which
/// are the body.
pub open spec fn parse_headers_spec(
    bytes: Seq<u8>,
    pos: int,
    acc: Seq<(Seq<char>, Seq<char>)>,
) -> Result<(Seq<(Seq<char>, Seq<char>)>, Seq<u8>), FetchError>
    decreases bytes.len() - pos,
    via parse_headers_spec_dec
{
    if pos < 0 || pos > bytes.len() {
        Err(FetchError::MalformedUrl)
    } else {
        let lp = line_at(bytes, pos);
        if lp.0.len() == 0 {
            Ok((acc, bytes.subrange(lp.1, bytes.len() as int)))
        } else {
            match header_pair(lp.0) {
                Err(e) => Err(e),
                Ok(p) => parse_headers_spec(bytes, lp.1, insert_entry(acc, p.0, p.1)),
            }
        }
    }
}

#[via_fn]
proof fn parse_headers_spec_dec(bytes: Seq<u8>, pos: int, acc: Seq<(Seq<char>, Seq<char>)>) {
    if 0 <= pos <= bytes.len() {
        match find_from(bytes, seq![10u8], pos) {
            Some(j) => {
                crate::text::lemma_find_from_some(bytes, seq![10u8], pos, j);
            },
            None => {
                let lp = line_at(bytes, pos);
                if lp.0.len() > 0 {
                    assert(bytes.subrange(pos, bytes.len() as int).len() > 0);
                }
            },
        }
    }
}

/// The status code as a number, accepted only in the range 100..=599.
pub open spec fn parse_status_code(s: Seq<char>) -> Option<u16> {
    match parse_u16_spec(s) {
        Some(c) => if 100 <= c && c <= 599 {
            Some(c)
        } else {
            None
        },
        None => None,
    }
}

/// What parsing a full received byte stream yields.
///
/// The first line must be UTF-8 and split twice on a space into version,
/// status code and reason; otherwise the response is malformed. A non-success
/// status stops there: the reason text doubles as the body and no headers are
/// read. A 200 status reads headers until a blank line; the rest of the bytes
/// are the body.
pub open spec fn parse_response_spec(bytes: Seq<u8>) -> Result<RespView, FetchError> {
    let lp = line_at(bytes, 0);
    if !valid_utf8(lp.0) {
        Err(FetchError::MalformedUrl)
    } else {
        match split_once_seq(decode_utf8(lp.0), seq![' ']) {
            None => Err(FetchError::MalformedUrl),
            Some(p1) => match split_once_seq(p1.1, seq![' ']) {
                None => Err(FetchError::MalformedUrl),
                Some(p2) => match parse_status_code(p2.0) {
                    None => Err(FetchError::MalformedUrl),
                    Some(code) => if code != 200 {
                        Ok(
                            RespView {
                                version: Seq::empty(),
                                status: code,
                                reason: p2.1,
                                headers: None,
                                body: Some(encode_utf8(p2.1)),
                            },
                        )
                    } else {
                        match parse_headers_spec(bytes, lp.1, Seq::empty()) {
                            Err(e) => Err(e),
                            Ok(hb) => Ok(
                                RespView {
                                    version: p1.0,
                                    status: 200,
                                    reason: p2.1,
                                    headers: Some(hb.0),
                                    body: Some(hb.1),
                                },
                            ),
                        }
                    },
                },
            },
        }
    }
}

// ---------------------------------------------------------------------------
// The parser
// ---------------------------------------------------------------------------
fn strip_cr_exec(v: Vec<u8>) -> (r: Vec<u8>)
    ensures
        r@ == strip_cr(v@),
{
    let mut v = v;
    if v.len() > 0 && v[v.len() - 1] == 13 {
        let _ = v.pop();
    }
    v
}

/// Takes the line starting at `pos`: its bytes without the terminator, and
/// the position just after it.
fn take_line(bytes: &Vec<u8>, pos: usize) -> (r: (Vec<u8>, usize))
    requires
        pos <= bytes@.len(),
    ensures
        (r.0@, r.1 as int) == line_at(bytes@, pos as int),
        pos <= r.1 <= bytes@.len(),
        r.0@.len() > 0 ==> r.1 > pos,
{
    let n = bytes.len();
    match find_byte(bytes, 10, pos) {
        Some(j) => {
            proof {
                crate::text::lemma_find_from_some(bytes@, seq![10u8], pos as int, j as int);
            }
            let line = strip_cr_exec(subvec_bytes(bytes, pos, j));
            (line, j + 1)
        },
        None => {
            let line = strip_cr_exec(subvec_bytes(bytes, pos, bytes.len()));
            (line, bytes.len())
        },
    }
}

/// Parses a received byte stream into a structured response, as
/// `parse_response_spec` says.
#[verifier::loop_isolation(false)]
pub fn parse_response(bytes: &Vec<u8>) -> (r: Result<Response, FetchError>)
    ensures
        match r {
            Ok(resp) => parse_response_spec(bytes@) == Ok::<RespView, FetchError>(resp@)
                && resp.wf(),
            Err(e) => parse_response_spec(bytes@) == Err::<RespView, FetchError>(e),
        },
{
    let (sline, after_status) = take_line(bytes, 0);
    let sline_str = match try_from_utf8(sline.as_slice()) {
        Some(s) => s,
        None => {
            return Err(FetchError::MalformedUrl);
        },
    };
    let cv = to_chars(sline_str);
    let space_pat: Vec<char> = vec![' '];
    proof {
        assert(space_pat@ =~= seq![' ']);
    }
    let ghost chars = decode_utf8(sline@);
    assert(cv@ == chars);
    let i1 = match find_sub(&cv, &space_pat) {
        Some(i) => {
            proof {
                crate::text::lemma_find_from_some(cv@, space_pat@, 0, i as int);
            }
            i
        },
        None => {
            return Err(FetchError::MalformedUrl);
        },
    };
    let ghost version = chars.subrange(0, i1 as int);
    let ghost rest1 = chars.subrange(i1 + 1, chars.len() as int);
    assert(split_once_seq(chars, seq![' ']) == Some((version, rest1)));
    let cn = cv.len();
    let rest_v = subvec(&cv, i1 + 1, cn);
    let i2 = match find_sub(&rest_v, &space_pat) {
        Some(i) => {
            proof {
                crate::text::lemma_find_from_some(rest_v@, space_pat@, 0, i as int);
            }
            i
        },
        None => {
            return Err(FetchError::MalformedUrl);
        },
    };
    let ghost code_text = rest1.subrange(0, i2 as int);
    let ghost reason = rest1.subrange(i2 + 1, rest1.len() as int);
    assert(split_once_seq(rest1, seq![' ']) == Some((code_text, reason)));
    let code = match parse_u16(&rest_v, 0, i2) {
        Some(c) => {
            assert(rest_v@.subrange(0, i2 as int) =~= code_text);
            c
        },
        None => {
            assert(rest_v@.subrange(0, i2 as int) =~= code_text);
            return Err(FetchError::MalformedUrl);
        },
    };
    if code < 100 || code > 599 {
        return Err(FetchError::MalformedUrl);
    }
    let reason_str = string_of_range(&rest_v, i2 + 1, rest_v.len());
    proof {
        assert(rest_v@.subrange(i2 + 1, rest_v@.len() as int) =~= reason);
    }
    if code != 200 {
        // The reason text doubles as the body; no headers are read.
        let body = reason_str.as_bytes_vec();
        let resp = Response {
            version: String::new(),
            status: code,
            reason: reason_str,
            headers: None,
            body: Some(body),
        };
        assert(resp@ =~= parse_response_spec(bytes@)->Ok_0);
        return Ok(resp);
    }
    let version_str = string_of_range(&cv, 0, i1);
    let mut hm = HeaderMap::new();
    let mut pos: usize = after_status;
    loop
        invariant
            pos <= bytes@.len(),
            hm.wf(),
            parse_headers_spec(bytes@, after_status as int, Seq::empty())
                == parse_headers_spec(bytes@, pos as int, hm.entries_view()),
        decreases bytes@.len() - pos,
    {
        let (line, next) = take_line(bytes, pos);
        if line.len() == 0 {
            proof {
                assert(parse_headers_spec(bytes@, pos as int, hm.entries_view()) == Ok::<
                    (Seq<(Seq<char>, Seq<char>)>, Seq<u8>),
                    FetchError,
                >((hm.entries_view(), bytes@.subrange(next as int, bytes@.len() as int))));
            }
            let body = subvec_bytes(bytes, next, bytes.len());
            let resp = Response {
                version: version_str,
                status: 200,
                reason: reason_str,
                headers: Some(hm),
                body: Some(body),
            };
            assert(resp@ =~= parse_response_spec(bytes@)->Ok_0);
            return Ok(resp);
        }
        let line_str = match try_from_utf8(line.as_slice()) {
            Some(s) => s,
            None => {
                return Err(FetchError::MalformedUrl);
            },
        };
        let lv = to_chars(line_str);
        let ghost lchars = decode_utf8(line@);
        assert(lv@ == lchars);
        let colon_pat: Vec<char> = vec![':'];
        proof {
            assert(colon_pat@ =~= seq![':']);
        }
        match find_sub(&lv, &colon_pat) {
            Some(ci) => {
                proof {
                    crate::text::lemma_find_from_some(lv@, colon_pat@, 0, ci as int);
                }
                let ghost name_chars = lchars.subrange(0, ci as int);
                let ghost value_chars = lchars.subrange(ci + 1, lchars.len() as int);
                assert(split_once_seq(lchars, seq![':']) == Some((name_chars, value_chars)));
                let ln = lv.len();
                let name_v = lowercase_chars(&subvec(&lv, 0, ci));
                let value_v = trim_chars(&subvec(&lv, ci + 1, ln));
                let name = string_of_chars(&name_v);
                let value = string_of_chars(&value_v);
                assert(header_pair(line@) == Ok::<(Seq<char>, Seq<char>), FetchError>(
                    (name@, value@),
                ));
                let ghost acc0 = hm.entries_view();
                proof {
                    assert(parse_headers_spec(bytes@, pos as int, acc0) == parse_headers_spec(
                        bytes@,
                        next as int,
                        insert_entry(acc0, name@, value@),
                    ));
                }
                hm.insert(name, value);
                pos = next;
            },
            None => {
                assert(split_once_seq(lchars, seq![':']) is None);
                return Err(FetchError::MalformedUrl);
            },
        }
    }
}

} // verus!
