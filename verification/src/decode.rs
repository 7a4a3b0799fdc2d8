//! Charset decoding: exact UTF-8 first, then best-effort detection with
//! chardetng, validated by a full decode with encoding_rs.

use vstd::prelude::*;
use vstd::slice::slice_subrange;
use vstd::string::StrSliceExecFns;
use vstd::utf8::decode_utf8;
use vstd::utf8::valid_utf8;

use crate::errors::FetchError;
use crate::response::Response;

verus! {

/// How many bytes are fed to the charset detector at a time.
pub const DETECT_STEP: usize = 100;

/// Relies on std's `str::from_utf8`: it succeeds exactly on valid UTF-8 and
/// yields the characters that the bytes encode.
#[verifier::external_body]
pub(crate) fn try_from_utf8(bytes: &[u8]) -> (r: Option<&str>)
    ensures
        r is Some <==> valid_utf8(bytes@),
        r matches Some(s) ==> s@ == decode_utf8(bytes@),
{
    core::str::from_utf8(bytes).ok()
}

#[verifier::external_type_specification]
#[verifier::external_body]
pub struct ExEncodingDetector(chardetng::EncodingDetector);

#[verifier::external_type_specification]
#[verifier::external_body]
pub struct ExEncoding(encoding_rs::Encoding);

/// Whether any byte is outside the ASCII range.
pub open spec fn contains_non_ascii(s: Seq<u8>) -> bool {
    exists|i: int| 0 <= i < s.len() && s[i] >= 128
}

/// What decoding `bytes` with the detector's best-guess encoding yields,
/// after the detector was fed `fed` (`closed` telling whether the stream end
/// was announced): the decoded text, and whether any malformed sequence had
/// to be replaced. Guess and decode are pure functions of these arguments;
/// what they compute takes the whole of chardetng and encoding_rs to state,
/// so the result only gets a name.
pub uninterp spec fn guess_decode_of(fed: Seq<u8>, closed: bool, bytes: Seq<u8>) -> (
    Seq<char>,
    bool,
);

/// A charset detector, together with whether it has been fed its final chunk
/// (after which it must not be fed again) and, as a ghost, the bytes fed so
/// far. The fields are private so that the flag and the ghost cannot be
/// rebuilt apart from the detector they describe.
pub struct Detector {
    inner: chardetng::EncodingDetector,
    closed: bool,
    fed: Ghost<Seq<u8>>,
}

impl Detector {
    /// Whether the final chunk has been fed.
    pub closed spec fn is_closed(&self) -> bool {
        self.closed
    }

    /// The bytes fed so far.
    pub closed spec fn fed_bytes(&self) -> Seq<u8> {
        self.fed@
    }
}

/// Relies on chardetng's `EncodingDetector::new`: a plain constructor, a
/// detector that has seen no input.
#[verifier::external_body]
fn raw_detector_new() -> chardetng::EncodingDetector {
    chardetng::EncodingDetector::new()
}

/// A fresh detector: nothing fed, not closed.
fn detector_new() -> (d: Detector)
    ensures
        !d.is_closed(),
        d.fed_bytes() == Seq::<u8>::empty(),
{
    Detector { inner: raw_detector_new(), closed: false, fed: Ghost(Seq::empty()) }
}

/// Relies on chardetng's `EncodingDetector::feed`: folds one chunk into the
/// detector's statistics and reports whether the bytes fed so far contain a
/// non-ASCII byte. `feed` panics when called again after a `last` call,
/// which the private `closed` flag mirrors, so the requires rules that out.
#[verifier::external_body]
fn detector_feed(d: &mut Detector, chunk: &[u8], last: bool) -> (r: bool)
    requires
        !old(d).is_closed(),
    ensures
        final(d).is_closed() == last,
        final(d).fed_bytes() == old(d).fed_bytes() + chunk@,
        r == contains_non_ascii(final(d).fed_bytes()),
{
    d.closed = last;
    d.inner.feed(chunk, last)
}

/// Relies on chardetng's `EncodingDetector::guess` (no top-level-domain
/// hint and UTF-8 disallowed, so the call cannot panic, which it only does
/// on a malformed hint) and on encoding_rs's `Encoding::decode` (honouring
/// its byte-order-mark policy): decodes `bytes` with the detector's current
/// best-guess encoding; the boolean reports whether any malformed sequence
/// had to be replaced. Both calls are pure functions of the fed bytes, the
/// end-of-stream flag and the bytes to decode, so the chained result
/// carries the single name `guess_decode_of`. The two calls share one
/// wrapper because the guessed encoding is opaque to the contracts: only
/// the name of the chain's result can be spoken of.
#[verifier::external_body]
fn decode_with_guess(d: &Detector, bytes: &[u8]) -> (r: (String, bool))
    ensures
        (r.0@, r.1) == guess_decode_of(d.fed_bytes(), d.is_closed(), bytes@),
{
    let (text, _, had_errors) = d.inner.guess(None, false).decode(bytes);
    (text.into_owned(), had_errors)
}

/// What the detection loop yields on the bytes `b`, starting at chunk
/// offset `i`: after each fed chunk that brings non-ASCII content into
/// view, the detector's guess is tried on the whole of `b`, and the first
/// clean decode wins; `None` when the input runs out without one.
pub open spec fn detect_spec(b: Seq<u8>, i: int) -> Option<Seq<char>>
    decreases b.len() - i,
    when 0 <= i <= b.len()
{
    let last = b.len() - i <= DETECT_STEP;
    let hi = if last {
        b.len() as int
    } else {
        i + DETECT_STEP
    };
    let fed = b.subrange(0, hi);
    if contains_non_ascii(fed) {
        let dec = guess_decode_of(fed, last, b);
        if !dec.1 {
            Some(dec.0)
        } else if last {
            None
        } else {
            detect_spec(b, hi)
        }
    } else if last {
        None
    } else {
        detect_spec(b, hi)
    }
}

impl Response {
    /// Decodes the body into text: exact UTF-8 decoding first; on failure,
    /// incremental charset detection in `DETECT_STEP`-byte chunks, accepting
    /// the first guess that decodes the whole body without replacement, as
    /// `detect_spec` says.
    ///
    /// An absent body decodes to the empty string. The result is
    /// `UndecodableCharset` exactly when the body is not UTF-8 and no guess
    /// decodes it cleanly.
    #[verifier::loop_isolation(false)]
    pub fn body_to_string(&self) -> (r: Result<String, FetchError>)
        ensures
            match self.body {
                Some(b) => {
                    &&& (valid_utf8(b@) ==> (r matches Ok(s) && s@ == decode_utf8(b@)))
                    &&& (!valid_utf8(b@) ==> (match detect_spec(b@, 0) {
                        Some(t) => r matches Ok(s) && s@ == t,
                        None => r == Err::<String, FetchError>(FetchError::UndecodableCharset),
                    }))
                },
                None => r matches Ok(s) && s@ == Seq::<char>::empty(),
            },
    {
        let body = match &self.body {
            Some(b) => b,
            None => {
                return Ok(String::new());
            },
        };
        match try_from_utf8(body.as_slice()) {
            Some(s) => Ok(s.to_owned()),
            None => {
                let mut det = detector_new();
                let n = body.len();
                let mut i: usize = 0;
                proof {
                    assert(det.fed_bytes() =~= body@.subrange(0, 0));
                }
                while n - i > DETECT_STEP
                    invariant
                        i <= n,
                        !det.is_closed(),
                        det.fed_bytes() == body@.subrange(0, i as int),
                        detect_spec(body@, 0) == detect_spec(body@, i as int),
                    decreases n - i,
                {
                    let hi = i + DETECT_STEP;
                    let chunk = slice_subrange(body.as_slice(), i, hi);
                    let non_ascii = detector_feed(&mut det, chunk, false);
                    proof {
                        assert(det.fed_bytes() =~= body@.subrange(0, hi as int));
                    }
                    if non_ascii {
                        let (text, bad) = decode_with_guess(&det, body.as_slice());
                        if !bad {
                            assert(detect_spec(body@, i as int) == Some(text@));
                            return Ok(text);
                        }
                    }
                    i = hi;
                }
                let chunk = slice_subrange(body.as_slice(), i, n);
                let non_ascii = detector_feed(&mut det, chunk, true);
                proof {
                    assert(det.fed_bytes() =~= body@.subrange(0, n as int));
                }
                if non_ascii {
                    let (text, bad) = decode_with_guess(&det, body.as_slice());
                    if !bad {
                        assert(detect_spec(body@, i as int) == Some(text@));
                        return Ok(text);
                    }
                }
                assert(detect_spec(body@, i as int) is None);
                Err(FetchError::UndecodableCharset)
            },
        }
    }
}

} // verus!
