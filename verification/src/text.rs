//! Character- and byte-level text utilities: substring search, splitting,
//! decimal parsing and formatting, lower-casing and trimming, together with
//! the spec functions that describe them.

use vstd::prelude::*;
use vstd::string::StrSliceExecFns;

verus! {

// ---------------------------------------------------------------------------
// Substring search
// ---------------------------------------------------------------------------
/// Index of the first occurrence of `p` in `s` at or after `i`, if any.
pub open spec fn find_from<A>(s: Seq<A>, p: Seq<A>, i: int) -> Option<int>
    decreases s.len() - i,
{
    if i < 0 || i + p.len() > s.len() {
        None
    } else if p.len() == 0 {
        Some(i)
    } else if s.subrange(i, i + p.len() as int) == p {
        Some(i)
    } else {
        find_from(s, p, i + 1)
    }
}

/// Index of the first occurrence of `p` in `s`, if any.
pub open spec fn find_seq<A>(s: Seq<A>, p: Seq<A>) -> Option<int> {
    find_from(s, p, 0)
}

/// What splitting `s` at the first occurrence of `p` yields: the part before
/// the separator and the part after it.
pub open spec fn split_once_seq<A>(s: Seq<A>, p: Seq<A>) -> Option<(Seq<A>, Seq<A>)> {
    match find_seq(s, p) {
        Some(i) => Some((s.subrange(0, i), s.subrange(i + p.len(), s.len() as int))),
        None => None,
    }
}

/// A successful find lies in bounds, matches there, and is the first match.
pub proof fn lemma_find_from_some<A>(s: Seq<A>, p: Seq<A>, j: int, i: int)
    requires
        0 <= j,
        find_from(s, p, j) == Some(i),
    ensures
        j <= i,
        i + p.len() <= s.len(),
        s.subrange(i, i + p.len() as int) == p,
        forall|k: int| j <= k < i ==> #[trigger] s.subrange(k, k + p.len() as int) != p,
    decreases s.len() - j,
{
    if j + p.len() > s.len() {
        // find_from would be None; contradiction with the requires.
    } else if p.len() == 0 {
        assert(s.subrange(j, j) =~= p);
    } else if s.subrange(j, j + p.len() as int) == p {
    } else {
        lemma_find_from_some(s, p, j + 1, i);
    }
}

/// The first match determines the find: a match at `k` with no match before
/// it is what `find_from` returns.
pub proof fn lemma_find_from_at<A>(s: Seq<A>, p: Seq<A>, j: int, k: int)
    requires
        0 <= j <= k,
        k + p.len() <= s.len(),
        p.len() > 0,
        s.subrange(k, k + p.len() as int) == p,
        forall|m: int| j <= m < k ==> #[trigger] s.subrange(m, m + p.len() as int) != p,
    ensures
        find_from(s, p, j) == Some(k),
    decreases k - j,
{
    if j == k {
    } else {
        lemma_find_from_at(s, p, j + 1, k);
    }
}

/// When no position matches, the find comes up empty.
pub proof fn lemma_find_from_all_no<A>(s: Seq<A>, p: Seq<A>, j: int)
    requires
        0 <= j,
        p.len() > 0,
        forall|m: int|
            j <= m && m + p.len() <= s.len() ==> #[trigger] s.subrange(m, m + p.len() as int) != p,
    ensures
        find_from(s, p, j) is None,
    decreases s.len() - j,
{
    if j + p.len() <= s.len() {
        lemma_find_from_all_no(s, p, j + 1);
    }
}

/// A one-element pattern matches at `m` exactly when the element stands there.
pub proof fn lemma_singleton_match<A>(s: Seq<A>, x: A, m: int)
    requires
        0 <= m < s.len(),
    ensures
        (s.subrange(m, m + 1) == seq![x]) <==> s[m] == x,
{
    assert(s.subrange(m, m + 1)[0] == s[m]);
    if s[m] == x {
        assert(s.subrange(m, m + 1) =~= seq![x]);
    }
}

proof fn lemma_find_from_skip<A>(s: Seq<A>, p: Seq<A>, i: int)
    requires
        0 <= i,
        i + p.len() <= s.len(),
        s.subrange(i, i + p.len() as int) != p,
    ensures
        find_from(s, p, i) == find_from(s, p, i + 1),
{
    if p.len() == 0 {
        assert(s.subrange(i, i + p.len() as int) =~= p);
    }
}

/// Whether `s@.subrange(i, i + p@.len())` equals `p@`, decided by comparing
/// element by element.
pub fn range_eq(s: &Vec<char>, i: usize, p: &Vec<char>) -> (r: bool)
    requires
        i + p@.len() <= s@.len(),
    ensures
        r == (s@.subrange(i as int, i + p@.len()) == p@),
{
    let ghost sub = s@.subrange(i as int, i + p@.len());
    let n = s.len();
    let mut j: usize = 0;
    while j < p.len()
        invariant
            n == s@.len(),
            i + p@.len() <= s@.len(),
            j <= p@.len(),
            sub == s@.subrange(i as int, i + p@.len()),
            forall|k: int| 0 <= k < j ==> sub[k] == p@[k],
        decreases p@.len() - j,
    {
        if s[i + j] != p[j] {
            assert(sub[j as int] == s@[i + j]);
            assert(sub != p@);
            return false;
        }
        j += 1;
    }
    assert(sub =~= p@);
    true
}

/// First occurrence of the pattern `p` in `s`, scanning left to right.
pub fn find_sub(s: &Vec<char>, p: &Vec<char>) -> (r: Option<usize>)
    ensures
        match r {
            Some(i) => find_seq(s@, p@) == Some(i as int),
            None => find_seq(s@, p@) is None,
        },
{
    if p.len() > s.len() {
        return None;
    }
    let n = s.len();
    let bound = n - p.len();
    let mut i: usize = 0;
    while i <= bound
        invariant
            n == s@.len(),
            bound == s@.len() - p@.len(),
            p@.len() <= s@.len(),
            i <= bound + 1,
            find_seq(s@, p@) == find_from(s@, p@, i as int),
        decreases bound + 1 - i,
    {
        if range_eq(s, i, p) {
            return Some(i);
        }
        proof {
            if p@.len() == 0 {
                assert(s@.subrange(i as int, i + p@.len()) =~= p@);
            }
            lemma_find_from_skip(s@, p@, i as int);
        }
        i += 1;
    }
    None
}

/// First occurrence of the byte `b` in `s` at or after `from`.
pub fn find_byte(s: &Vec<u8>, b: u8, from: usize) -> (r: Option<usize>)
    requires
        from <= s@.len(),
    ensures
        match r {
            Some(i) => from <= i && find_from(s@, seq![b], from as int) == Some(i as int),
            None => find_from(s@, seq![b], from as int) is None,
        },
{
    let mut i: usize = from;
    while i < s.len()
        invariant
            from <= i <= s@.len(),
            find_from(s@, seq![b], from as int) == find_from(s@, seq![b], i as int),
        decreases s@.len() - i,
    {
        if s[i] == b {
            assert(s@.subrange(i as int, i + 1) =~= seq![b]);
            return Some(i);
        }
        proof {
            assert(s@.subrange(i as int, i + 1)[0] == s@[i as int]);
            assert(s@.subrange(i as int, i + 1) != seq![b]);
            lemma_find_from_skip(s@, seq![b], i as int);
        }
        i += 1;
    }
    None
}

// ---------------------------------------------------------------------------
// Conversions between strings, characters and byte vectors
// ---------------------------------------------------------------------------
/// The characters of `s`, one vector element per character.
pub fn to_chars(s: &str) -> (v: Vec<char>)
    ensures
        v@ == s@,
{
    let n = s.unicode_len();
    let mut v: Vec<char> = Vec::new();
    let mut i: usize = 0;
    while i < n
        invariant
            n == s@.len(),
            i <= n,
            v@ =~= s@.subrange(0, i as int),
        decreases n - i,
    {
        v.push(s.get_char(i));
        i += 1;
    }
    assert(v@ =~= s@);
    v
}

/// Relies on std's `String::push`: appends the given character to the end of
/// the string.
#[verifier::external_body]
fn push_char(s: &mut String, c: char)
    ensures
        final(s)@ == old(s)@.push(c),
{
    s.push(c);
}

/// A string holding exactly the characters `v[lo..hi]`.
pub fn string_of_range(v: &Vec<char>, lo: usize, hi: usize) -> (r: String)
    requires
        lo <= hi <= v@.len(),
    ensures
        r@ == v@.subrange(lo as int, hi as int),
{
    let mut r = String::new();
    let mut i: usize = lo;
    while i < hi
        invariant
            lo <= i <= hi <= v@.len(),
            r@ =~= v@.subrange(lo as int, i as int),
        decreases hi - i,
    {
        push_char(&mut r, v[i]);
        i += 1;
    }
    assert(r@ =~= v@.subrange(lo as int, hi as int));
    r
}

/// A string holding exactly the characters of `v`.
pub fn string_of_chars(v: &Vec<char>) -> (r: String)
    ensures
        r@ == v@,
{
    let r = string_of_range(v, 0, v.len());
    assert(v@.subrange(0, v@.len() as int) =~= v@);
    r
}

/// The elements `v[lo..hi]` as a vector of their own.
pub fn subvec(v: &Vec<char>, lo: usize, hi: usize) -> (r: Vec<char>)
    requires
        lo <= hi <= v@.len(),
    ensures
        r@ == v@.subrange(lo as int, hi as int),
{
    let mut r: Vec<char> = Vec::new();
    let mut i: usize = lo;
    while i < hi
        invariant
            lo <= i <= hi <= v@.len(),
            r@ =~= v@.subrange(lo as int, i as int),
        decreases hi - i,
    {
        r.push(v[i]);
        i += 1;
    }
    assert(r@ =~= v@.subrange(lo as int, hi as int));
    r
}

/// The bytes `v[lo..hi]` as a vector of their own.
pub fn subvec_bytes(v: &Vec<u8>, lo: usize, hi: usize) -> (r: Vec<u8>)
    requires
        lo <= hi <= v@.len(),
    ensures
        r@ == v@.subrange(lo as int, hi as int),
{
    let mut r: Vec<u8> = Vec::new();
    let mut i: usize = lo;
    while i < hi
        invariant
            lo <= i <= hi <= v@.len(),
            r@ =~= v@.subrange(lo as int, i as int),
        decreases hi - i,
    {
        r.push(v[i]);
        i += 1;
    }
    assert(r@ =~= v@.subrange(lo as int, hi as int));
    r
}

// ---------------------------------------------------------------------------
// Decimal numbers
// ---------------------------------------------------------------------------
pub open spec fn is_digit(c: char) -> bool {
    '0' <= c && c <= '9'
}

pub open spec fn digit_val(c: char) -> int {
    c as u32 - '0' as u32
}

pub open spec fn all_digits(s: Seq<char>) -> bool {
    forall|i: int| 0 <= i < s.len() ==> is_digit(#[trigger] s[i])
}

/// Value of a digit string read in base ten.
pub open spec fn dec_val(s: Seq<char>) -> int
    decreases s.len(),
{
    if s.len() == 0 {
        0
    } else {
        dec_val(s.drop_last()) * 10 + digit_val(s.last())
    }
}

/// What parsing `s` as an unsigned 16-bit decimal number yields: digits only,
/// at least one, value at most 65535.
pub open spec fn parse_u16_spec(s: Seq<char>) -> Option<u16> {
    if s.len() > 0 && all_digits(s) && dec_val(s) <= 65535 {
        Some(dec_val(s) as u16)
    } else {
        None
    }
}

proof fn lemma_dec_val_take_step(s: Seq<char>, i: int)
    requires
        0 <= i < s.len(),
    ensures
        dec_val(s.subrange(0, i + 1)) == dec_val(s.subrange(0, i)) * 10 + digit_val(s[i]),
{
    let t = s.subrange(0, i + 1);
    assert(t.drop_last() =~= s.subrange(0, i));
    assert(t.last() == s[i]);
}

proof fn lemma_dec_val_grows(s: Seq<char>, i: int)
    requires
        0 <= i <= s.len(),
        all_digits(s),
        dec_val(s.subrange(0, i)) > 65535,
    ensures
        dec_val(s) > 65535,
    decreases s.len() - i,
{
    if i == s.len() {
        assert(s.subrange(0, i) =~= s);
    } else {
        lemma_dec_val_take_step(s, i);
        assert(is_digit(s[i]));
        assert(digit_val(s[i]) >= 0);
        lemma_dec_val_grows(s, i + 1);
    }
}

/// Parses `v[lo..hi]` as an unsigned 16-bit decimal number; `None` on an empty
/// range, a non-digit, or a value over 65535.
pub fn parse_u16(v: &Vec<char>, lo: usize, hi: usize) -> (r: Option<u16>)
    requires
        lo <= hi <= v@.len(),
    ensures
        r == parse_u16_spec(v@.subrange(lo as int, hi as int)),
{
    let ghost s = v@.subrange(lo as int, hi as int);
    if lo == hi {
        return None;
    }
    let mut acc: u32 = 0;
    let mut i: usize = lo;
    while i < hi
        invariant
            lo <= i <= hi <= v@.len(),
            s == v@.subrange(lo as int, hi as int),
            acc <= 65535,
            acc == dec_val(s.subrange(0, (i - lo) as int)),
            forall|k: int| 0 <= k < i - lo ==> is_digit(#[trigger] s[k]),
        decreases hi - i,
    {
        let c = v[i];
        assert(s[i - lo] == c);
        if !(c >= '0' && c <= '9') {
            assert(!is_digit(s[i - lo]));
            assert(!all_digits(s));
            return None;
        }
        let d: u32 = c as u32 - '0' as u32;
        proof {
            lemma_dec_val_take_step(s, i - lo);
        }
        acc = acc * 10 + d;
        i += 1;
        if acc > 65535 {
            proof {
                if all_digits(s) {
                    lemma_dec_val_grows(s, i - lo);
                }
            }
            return None;
        }
    }
    assert(s.subrange(0, s.len() as int) =~= s);
    assert(all_digits(s));
    Some(acc as u16)
}

pub open spec fn digit_char(d: int) -> char {
    if d == 0 {
        '0'
    } else if d == 1 {
        '1'
    } else if d == 2 {
        '2'
    } else if d == 3 {
        '3'
    } else if d == 4 {
        '4'
    } else if d == 5 {
        '5'
    } else if d == 6 {
        '6'
    } else if d == 7 {
        '7'
    } else if d == 8 {
        '8'
    } else {
        '9'
    }
}

/// The decimal digits of `n`, most significant first, no leading zeros
/// (except for `n == 0` itself).
pub open spec fn dec_str(n: int) -> Seq<char>
    decreases n,
{
    if n <= 9 {
        seq![digit_char(n)]
    } else {
        dec_str(n / 10).push(digit_char(n % 10))
    }
}

fn digit_char_exec(d: u16) -> (c: char)
    requires
        d <= 9,
    ensures
        c == digit_char(d as int),
{
    if d == 0 {
        '0'
    } else if d == 1 {
        '1'
    } else if d == 2 {
        '2'
    } else if d == 3 {
        '3'
    } else if d == 4 {
        '4'
    } else if d == 5 {
        '5'
    } else if d == 6 {
        '6'
    } else if d == 7 {
        '7'
    } else if d == 8 {
        '8'
    } else {
        '9'
    }
}

fn push_dec_digits(n: u16, out: &mut Vec<char>)
    ensures
        final(out)@ == old(out)@ + dec_str(n as int),
    decreases n,
{
    let ghost o0 = out@;
    if n <= 9 {
        out.push(digit_char_exec(n));
        assert(out@ =~= o0 + dec_str(n as int));
    } else {
        push_dec_digits(n / 10, out);
        out.push(digit_char_exec(n % 10));
        assert(out@ =~= o0 + dec_str(n as int));
    }
}

/// The decimal digits of `n` as characters.
pub fn dec_chars(n: u16) -> (r: Vec<char>)
    ensures
        r@ == dec_str(n as int),
{
    let mut out: Vec<char> = Vec::new();
    push_dec_digits(n, &mut out);
    assert(out@ =~= dec_str(n as int));
    out
}

/// `n` written in decimal.
pub fn u16_to_string(n: u16) -> (r: String)
    ensures
        r@ == dec_str(n as int),
{
    let v = dec_chars(n);
    string_of_chars(&v)
}

// ---------------------------------------------------------------------------
// Lower-casing and trimming
// ---------------------------------------------------------------------------
/// ASCII lower-casing of one character; other characters are untouched.
pub open spec fn lower_char(c: char) -> char {
    if 'A' <= c && c <= 'Z' {
        ((c as u32 + 32) as char)
    } else {
        c
    }
}

pub open spec fn lower_chars(s: Seq<char>) -> Seq<char> {
    s.map_values(|c: char| lower_char(c))
}

fn lower_char_exec(c: char) -> (r: char)
    ensures
        r == lower_char(c),
{
    if c >= 'A' && c <= 'Z' {
        match c {
            'A' => 'a',
            'B' => 'b',
            'C' => 'c',
            'D' => 'd',
            'E' => 'e',
            'F' => 'f',
            'G' => 'g',
            'H' => 'h',
            'I' => 'i',
            'J' => 'j',
            'K' => 'k',
            'L' => 'l',
            'M' => 'm',
            'N' => 'n',
            'O' => 'o',
            'P' => 'p',
            'Q' => 'q',
            'R' => 'r',
            'S' => 's',
            'T' => 't',
            'U' => 'u',
            'V' => 'v',
            'W' => 'w',
            'X' => 'x',
            'Y' => 'y',
            _ => 'z',
        }
    } else {
        c
    }
}

/// ASCII lower-casing, character by character.
pub fn lowercase_chars(v: &Vec<char>) -> (r: Vec<char>)
    ensures
        r@ == lower_chars(v@),
{
    let mut r: Vec<char> = Vec::new();
    let mut i: usize = 0;
    while i < v.len()
        invariant
            i <= v@.len(),
            r@.len() == i,
            forall|k: int| 0 <= k < i ==> r@[k] == lower_char(v@[k]),
        decreases v@.len() - i,
    {
        r.push(lower_char_exec(v[i]));
        i += 1;
    }
    assert(r@ =~= lower_chars(v@));
    r
}

/// The whitespace characters that trimming removes.
pub open spec fn is_space(c: char) -> bool {
    c == ' ' || c == '\t' || c == '\r' || c == '\n'
}

/// Index of the first character that is not whitespace (the length if all are).
pub open spec fn first_hard(s: Seq<char>) -> int
    decreases s.len(),
{
    if s.len() == 0 {
        0
    } else if is_space(s[0]) {
        1 + first_hard(s.subrange(1, s.len() as int))
    } else {
        0
    }
}

/// Index of the last character that is not whitespace (-1 if all are).
pub open spec fn last_hard(s: Seq<char>) -> int
    decreases s.len(),
{
    if s.len() == 0 {
        -1
    } else if is_space(s.last()) {
        last_hard(s.drop_last())
    } else {
        s.len() - 1
    }
}

/// `s` with leading and trailing whitespace removed.
pub open spec fn trim_spec(s: Seq<char>) -> Seq<char> {
    let lo = first_hard(s);
    let hi = last_hard(s);
    if lo > hi {
        Seq::empty()
    } else {
        s.subrange(lo, hi + 1)
    }
}

proof fn lemma_first_hard_at(s: Seq<char>, i: int)
    requires
        0 <= i <= s.len(),
        forall|k: int| 0 <= k < i ==> is_space(#[trigger] s[k]),
        i == s.len() || !is_space(s[i]),
    ensures
        first_hard(s) == i,
    decreases i,
{
    if i == 0 {
        if s.len() > 0 {
            assert(!is_space(s[0]));
        }
    } else {
        assert(is_space(s[0]));
        let t = s.subrange(1, s.len() as int);
        assert(forall|k: int| 0 <= k < i - 1 ==> is_space(#[trigger] t[k]));
        assert(i - 1 == t.len() || !is_space(t[i - 1]));
        lemma_first_hard_at(t, i - 1);
    }
}

proof fn lemma_last_hard_at(s: Seq<char>, i: int)
    requires
        -1 <= i < s.len(),
        forall|k: int| i < k < s.len() ==> is_space(#[trigger] s[k]),
        i == -1 || !is_space(s[i]),
    ensures
        last_hard(s) == i,
    decreases s.len() - i,
{
    if i == s.len() - 1 {
        if s.len() > 0 {
            assert(!is_space(s.last()));
        }
    } else {
        assert(is_space(s.last()));
        let t = s.drop_last();
        assert(forall|k: int| i < k < t.len() ==> is_space(#[trigger] t[k]));
        assert(i == -1 || !is_space(t[i]));
        lemma_last_hard_at(t, i);
    }
}

fn is_space_exec(c: char) -> (r: bool)
    ensures
        r == is_space(c),
{
    c == ' ' || c == '\t' || c == '\r' || c == '\n'
}

/// `v` with leading and trailing whitespace removed.
pub fn trim_chars(v: &Vec<char>) -> (r: Vec<char>)
    ensures
        r@ == trim_spec(v@),
{
    let n = v.len();
    let mut lo: usize = 0;
    while lo < n && is_space_exec(v[lo])
        invariant
            n == v@.len(),
            lo <= n,
            forall|k: int| 0 <= k < lo ==> is_space(#[trigger] v@[k]),
        decreases n - lo,
    {
        lo += 1;
    }
    proof {
        lemma_first_hard_at(v@, lo as int);
    }
    if lo == n {
        proof {
            lemma_last_hard_at(v@, -1);
        }
        return Vec::new();
    }
    let mut hi: usize = n;
    while hi > lo && is_space_exec(v[hi - 1])
        invariant
            n == v@.len(),
            lo <= hi <= n,
            forall|k: int| hi <= k < n ==> is_space(#[trigger] v@[k]),
        decreases hi,
    {
        hi -= 1;
    }
    assert(!is_space(v@[lo as int]));
    assert(hi > lo) by {
        if hi == lo {
            assert(is_space(v@[lo as int]));
        }
    }
    assert(!is_space(v@[hi - 1]));
    proof {
        lemma_last_hard_at(v@, hi - 1);
    }
    subvec(v, lo, hi)
}

} // verus!
