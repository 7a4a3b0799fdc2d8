//! The text extractor: a tag-depth state machine that either strips all
//! markup from an error body, or isolates the visible contents of the
//! `<body>` element of a success body.

use vstd::prelude::*;
use vstd::utf8::decode_utf8;
use vstd::utf8::valid_utf8;

use crate::errors::FetchError;
use crate::request::starts_with_seq;
use crate::response::Response;
use crate::text::dec_chars;
use crate::text::dec_str;
use crate::text::range_eq;
use crate::text::string_of_chars;
use crate::text::to_chars;

verus! {

// ---------------------------------------------------------------------------
// Stripping all markup (non-success responses)
// ---------------------------------------------------------------------------
/// `s` with every character dropped that stands at angle depth >= 1, and the
/// angle brackets themselves dropped too. The depth counts unmatched `<`; a
/// stray `>` at depth zero is ignored rather than driving the depth negative.
pub open spec fn strip_tags(s: Seq<char>, depth: nat) -> Seq<char>
    decreases s.len(),
{
    if s.len() == 0 {
        Seq::empty()
    } else {
        let c = s[0];
        let rest = s.subrange(1, s.len() as int);
        if c == '<' {
            strip_tags(rest, depth + 1)
        } else if c == '>' {
            strip_tags(rest, if depth > 0 { (depth - 1) as nat } else { 0 })
        } else if depth == 0 {
            seq![c] + strip_tags(rest, 0)
        } else {
            strip_tags(rest, depth)
        }
    }
}

/// Text that holds neither `<` nor `>`.
pub open spec fn has_no_angles(s: Seq<char>) -> bool {
    forall|i: int| 0 <= i < s.len() ==> #[trigger] s[i] != '<' && s[i] != '>'
}

/// Stripping leaves text without angle brackets unchanged.
pub proof fn lemma_strip_plain(s: Seq<char>)
    requires
        has_no_angles(s),
    ensures
        strip_tags(s, 0) == s,
    decreases s.len(),
{
    if s.len() > 0 {
        let rest = s.subrange(1, s.len() as int);
        assert(has_no_angles(rest));
        lemma_strip_plain(rest);
        assert(seq![s[0]] + rest =~= s);
    }
}

/// Stripped output never holds an angle bracket.
pub proof fn lemma_strip_no_angles(s: Seq<char>, depth: nat)
    ensures
        has_no_angles(strip_tags(s, depth)),
    decreases s.len(),
{
    if s.len() > 0 {
        let c = s[0];
        let rest = s.subrange(1, s.len() as int);
        if c == '<' {
            lemma_strip_no_angles(rest, depth + 1);
        } else if c == '>' {
            lemma_strip_no_angles(rest, if depth > 0 { (depth - 1) as nat } else { 0 });
        } else if depth == 0 {
            lemma_strip_no_angles(rest, 0);
            let t = strip_tags(s, depth);
            assert forall|i: int| 0 <= i < t.len() implies #[trigger] t[i] != '<' && t[i]
                != '>' by {
                if i > 0 {
                    assert(t[i] == strip_tags(rest, 0)[i - 1]);
                }
            }
        } else {
            lemma_strip_no_angles(rest, depth);
        }
    }
}

/// Tag stripping is idempotent: stripping already-stripped text changes
/// nothing, because stripped text is plain.
pub proof fn lemma_strip_idempotent(s: Seq<char>)
    ensures
        strip_tags(strip_tags(s, 0), 0) == strip_tags(s, 0),
{
    lemma_strip_no_angles(s, 0);
    lemma_strip_plain(strip_tags(s, 0));
}

/// A stray `>` at depth zero cannot underflow the depth: it clamps, and
/// stripping goes on as if the bracket were not there.
pub proof fn lemma_strip_ignores_stray_closer(s: Seq<char>)
    ensures
        strip_tags(seq!['>'] + s, 0) == strip_tags(s, 0),
{
    let t = seq!['>'] + s;
    assert(t[0] == '>');
    assert(t.subrange(1, t.len() as int) =~= s);
}

// ---------------------------------------------------------------------------
// Isolating the body element (success responses)
// ---------------------------------------------------------------------------
/// The extractor's transient state: angle depth (clamped at zero), the tag
/// name being accumulated, whether a body-open and a body-close tag have been
/// seen, and the output so far.
#[verifier::ext_equal]
pub ghost struct ScanState {
    pub depth: nat,
    pub tag: Seq<char>,
    pub opened: bool,
    pub closed: bool,
    pub out: Seq<char>,
}

pub open spec fn scan_init() -> ScanState {
    ScanState { depth: 0, tag: Seq::empty(), opened: false, closed: false, out: Seq::empty() }
}

pub open spec fn body_open_name() -> Seq<char> {
    seq!['b', 'o', 'd', 'y']
}

pub open spec fn body_close_name() -> Seq<char> {
    seq!['/', 'b', 'o', 'd', 'y']
}

/// One step of the scan. `<` enters a tag and clears the tag buffer; `>`
/// closes it, marking body-open or body-close when the buffered name starts
/// with `body` or `/body` (a prefix match, so `<bodyclass=..>` counts too).
/// Body-close can only latch once body-open has: a stray `/body` tag before
/// any body-open tag is ignored. Text at depth zero between body-open and
/// body-close goes to the output; text inside a tag accumulates as the tag
/// name.
pub open spec fn scan_step(st: ScanState, c: char) -> ScanState {
    if c == '<' {
        ScanState { depth: st.depth + 1, tag: Seq::empty(), ..st }
    } else if c == '>' {
        ScanState {
            depth: if st.depth > 0 {
                (st.depth - 1) as nat
            } else {
                0
            },
            tag: Seq::empty(),
            opened: if starts_with_seq(st.tag, body_open_name()) {
                true
            } else {
                st.opened
            },
            closed: if st.opened && !starts_with_seq(st.tag, body_open_name())
                && starts_with_seq(st.tag, body_close_name()) {
                true
            } else {
                st.closed
            },
            ..st
        }
    } else if st.depth == 0 && st.opened && !st.closed {
        ScanState { out: st.out.push(c), ..st }
    } else if st.depth >= 1 {
        ScanState { tag: st.tag.push(c), ..st }
    } else {
        st
    }
}

/// The state after scanning all of `s`.
pub open spec fn scan(s: Seq<char>) -> ScanState
    decreases s.len(),
{
    if s.len() == 0 {
        scan_init()
    } else {
        scan_step(scan(s.drop_last()), s.last())
    }
}

/// A stray `>` at depth zero cannot underflow the scan's depth either: the
/// step leaves the initial state unchanged, so extraction degrades
/// gracefully on unbalanced markup.
pub proof fn lemma_scan_ignores_stray_closer(s: Seq<char>)
    ensures
        scan(seq!['>'] + s) == scan(s),
    decreases s.len(),
{
    let t = seq!['>'] + s;
    if s.len() == 0 {
        assert(t.drop_last() =~= Seq::<char>::empty());
        assert(t.last() == '>');
        assert(scan(Seq::<char>::empty()) == scan_init());
        assert(scan_step(scan_init(), '>') =~= scan_init());
    } else {
        assert(t.drop_last() =~= seq!['>'] + s.drop_last());
        assert(t.last() == s.last());
        lemma_scan_ignores_stray_closer(s.drop_last());
    }
}

proof fn lemma_scan_take_step(s: Seq<char>, i: int)
    requires
        0 <= i < s.len(),
    ensures
        scan(s.subrange(0, i + 1)) == scan_step(scan(s.subrange(0, i)), s[i]),
{
    assert(s.subrange(0, i + 1).drop_last() =~= s.subrange(0, i));
    assert(s.subrange(0, i + 1).last() == s[i]);
}

// ---------------------------------------------------------------------------
// The executable extractor
// ---------------------------------------------------------------------------
/// Isolates the visible text of the `<body>` element: characters at angle
/// depth zero, after a body-open tag and before a body-close tag that
/// follows it, with all markup dropped.
#[verifier::loop_isolation(false)]
pub fn show_only_body(body: &str) -> (r: String)
    ensures
        r@ == scan(body@).out,
{
    let v = to_chars(body);
    let n = v.len();
    let open_pat: Vec<char> = vec!['b', 'o', 'd', 'y'];
    let close_pat: Vec<char> = vec!['/', 'b', 'o', 'd', 'y'];
    proof {
        assert(open_pat@ =~= body_open_name());
        assert(close_pat@ =~= body_close_name());
    }
    let mut depth: usize = 0;
    let mut opened = false;
    let mut closed = false;
    let mut tag: Vec<char> = Vec::new();
    let mut out: Vec<char> = Vec::new();
    let mut i: usize = 0;
    proof {
        assert(v@.subrange(0, 0) =~= Seq::<char>::empty());
    }
    while i < n
        invariant
            i <= n,
            depth <= i,
            ({
                let st = scan(v@.subrange(0, i as int));
                &&& depth == st.depth
                &&& tag@ == st.tag
                &&& opened == st.opened
                &&& closed == st.closed
                &&& out@ == st.out
            }),
        decreases n - i,
    {
        proof {
            lemma_scan_take_step(v@, i as int);
        }
        let c = v[i];
        if c == '<' {
            tag.clear();
            depth += 1;
        } else if c == '>' {
            let is_open = tag.len() >= 4 && range_eq(&tag, 0, &open_pat);
            let is_close = tag.len() >= 5 && range_eq(&tag, 0, &close_pat);
            if is_open {
                opened = true;
            } else if is_close && opened {
                closed = true;
            }
            tag.clear();
            if depth > 0 {
                depth -= 1;
            }
        } else if depth == 0 && opened && !closed {
            out.push(c);
        } else if depth >= 1 {
            tag.push(c);
        }
        i += 1;
    }
    assert(v@.subrange(0, n as int) =~= v@);
    string_of_chars(&out)
}

/// Strips all markup from `body` and prepends the numeric status and reason
/// (`404 Not Found` style).
#[verifier::loop_isolation(false)]
pub fn show_without_tag(status: u16, reason: &str, body: &str) -> (r: String)
    ensures
        r@ == dec_str(status as int) + seq![' '] + reason@ + strip_tags(body@, 0),
{
    let v = to_chars(body);
    let n = v.len();
    let mut out: Vec<char> = dec_chars(status);
    out.push(' ');
    let rv = to_chars(reason);
    let mut j: usize = 0;
    while j < rv.len()
        invariant
            j <= rv@.len(),
            out@ =~= dec_str(status as int) + seq![' '] + rv@.subrange(0, j as int),
        decreases rv@.len() - j,
    {
        out.push(rv[j]);
        j += 1;
    }
    assert(rv@.subrange(0, rv@.len() as int) =~= rv@);
    let ghost head = out@;
    let mut depth: usize = 0;
    let mut i: usize = 0;
    proof {
        assert(v@.subrange(0, n as int) =~= v@);
        assert(out@.subrange(head.len() as int, out@.len() as int) =~= Seq::<char>::empty());
        assert(Seq::<char>::empty() + strip_tags(v@, 0) =~= strip_tags(v@, 0));
        assert(out@.subrange(0, head.len() as int) =~= head);
    }
    while i < n
        invariant
            i <= n,
            depth <= i,
            strip_tags(v@, 0) == out@.subrange(head.len() as int, out@.len() as int) + strip_tags(
                v@.subrange(i as int, n as int),
                depth as nat,
            ),
            out@.len() >= head.len(),
            out@.subrange(0, head.len() as int) == head,
        decreases n - i,
    {
        let ghost pre = out@;
        let ghost rem = v@.subrange(i as int, n as int);
        proof {
            assert(rem.subrange(1, rem.len() as int) =~= v@.subrange(i + 1, n as int));
            assert(rem[0] == v@[i as int]);
        }
        let c = v[i];
        if c == '<' {
            depth += 1;
        } else if c == '>' {
            if depth > 0 {
                depth -= 1;
            }
        } else if depth == 0 {
            out.push(c);
            proof {
                assert(out@.subrange(head.len() as int, out@.len() as int) =~= pre.subrange(
                    head.len() as int,
                    pre.len() as int,
                ).push(c));
                assert(pre.subrange(head.len() as int, pre.len() as int).push(c) + strip_tags(
                    v@.subrange(i + 1, n as int),
                    0,
                ) =~= pre.subrange(head.len() as int, pre.len() as int) + (seq![c] + strip_tags(
                    v@.subrange(i + 1, n as int),
                    0,
                )));
                assert(out@.subrange(0, head.len() as int) =~= head);
            }
        }
        i += 1;
    }
    proof {
        assert(v@.subrange(n as int, n as int) =~= Seq::<char>::empty());
        assert(strip_tags(Seq::<char>::empty(), depth as nat) =~= Seq::<char>::empty());
        assert(out@ =~= head + strip_tags(v@, 0));
    }
    string_of_chars(&out)
}

/// What the final displayable text is, given the status, the reason and the
/// decoded body text: body-element isolation for a success status, full
/// markup stripping with a `status reason` prefix otherwise.
pub open spec fn extract_spec(status: u16, reason: Seq<char>, text: Seq<char>) -> Seq<char> {
    if status == 200 {
        scan(text).out
    } else {
        dec_str(status as int) + seq![' '] + reason + strip_tags(text, 0)
    }
}

/// Reduces a response to displayable text: the body is decoded (exact UTF-8
/// first, charset detection as `detect_spec` says otherwise), then the
/// extractor runs on the decoded text as `extract_spec` says.
pub fn show(resp: &Response) -> (r: Result<String, FetchError>)
    ensures
        match resp.body {
            Some(b) => {
                &&& (valid_utf8(b@) ==> (r matches Ok(s) && s@ == extract_spec(
                    resp.status,
                    resp.reason@,
                    decode_utf8(b@),
                )))
                &&& (!valid_utf8(b@) ==> (match crate::decode::detect_spec(b@, 0) {
                    Some(t) => r matches Ok(s) && s@ == extract_spec(resp.status, resp.reason@, t),
                    None => r == Err::<String, FetchError>(FetchError::UndecodableCharset),
                }))
            },
            None => r matches Ok(s) && s@ == extract_spec(resp.status, resp.reason@, Seq::empty()),
        },
{
    let text = match resp.body_to_string() {
        Ok(t) => t,
        Err(e) => {
            return Err(e);
        },
    };
    if resp.status == 200 {
        let s = show_only_body(text.as_str());
        assert(s@ == extract_spec(resp.status, resp.reason@, text@));
        Ok(s)
    } else {
        let s = show_without_tag(resp.status, resp.reason.as_str(), text.as_str());
        assert(s@ == extract_spec(resp.status, resp.reason@, text@));
        Ok(s)
    }
}

} // verus!
