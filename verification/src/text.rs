//! Line-oriented text handling shared by every decoder: lossy decoding,
//! trimming, line splitting, `key=value` pairs, and scalar fields.
//!
//! Records are decoded from a character buffer; positions are character
//! indices into that buffer.  The mathematical meaning of each operation is a
//! spec function over `Seq<char>`.
use vstd::prelude::*;
use vstd::utf8::{valid_utf8, decode_utf8};
use crate::error::{IronfleetError, ErrorView, diag, Severity};
use crate::strings::{chars_of, push_char, string_of_all};

verus! {

// ---------------------------------------------------------------------------
// Character classes
// ---------------------------------------------------------------------------

/// Unicode `White_Space`, the class that `str::trim` and
/// `str::split_whitespace` use.
pub open spec fn is_ws(c: char) -> bool {
    ('\u{9}' <= c && c <= '\u{d}') || c == ' ' || c == '\u{85}' || c == '\u{a0}'
        || c == '\u{1680}' || ('\u{2000}' <= c && c <= '\u{200a}') || c == '\u{2028}'
        || c == '\u{2029}' || c == '\u{202f}' || c == '\u{205f}' || c == '\u{3000}'
}

/// ASCII whitespace as `char::is_ascii_whitespace` defines it.
pub open spec fn is_ascii_ws(c: char) -> bool {
    c == ' ' || c == '\t' || c == '\n' || c == '\u{c}' || c == '\r'
}

pub fn is_ws_char(c: char) -> (r: bool)
    ensures
        r == is_ws(c),
{
    ('\u{9}' <= c && c <= '\u{d}') || c == ' ' || c == '\u{85}' || c == '\u{a0}'
        || c == '\u{1680}' || ('\u{2000}' <= c && c <= '\u{200a}') || c == '\u{2028}'
        || c == '\u{2029}' || c == '\u{202f}' || c == '\u{205f}' || c == '\u{3000}'
}

/// The characters that a trim removes from both ends.
pub enum Trim {
    /// Unicode whitespace (`str::trim`).
    Space,
    /// ASCII whitespace, `,` and `;` (the edges of a pair token).
    TokenEdge,
    /// The double quote.
    Quote,
}

pub open spec fn trims(k: Trim, c: char) -> bool {
    match k {
        Trim::Space => is_ws(c),
        Trim::TokenEdge => is_ascii_ws(c) || c == ',' || c == ';',
        Trim::Quote => c == '"',
    }
}

pub fn trims_char(k: &Trim, c: char) -> (r: bool)
    ensures
        r == trims(*k, c),
{
    match k {
        Trim::Space => is_ws_char(c),
        Trim::TokenEdge => c == ' ' || c == '\t' || c == '\n' || c == '\u{c}' || c == '\r' || c == ','
            || c == ';',
        Trim::Quote => c == '"',
    }
}

pub open spec fn drop_lead(s: Seq<char>, k: Trim) -> Seq<char>
    decreases s.len(),
{
    if s.len() > 0 && trims(k, s[0]) {
        drop_lead(s.drop_first(), k)
    } else {
        s
    }
}

pub open spec fn drop_trail(s: Seq<char>, k: Trim) -> Seq<char>
    decreases s.len(),
{
    if s.len() > 0 && trims(k, s.last()) {
        drop_trail(s.drop_last(), k)
    } else {
        s
    }
}

/// `s` without the leading and trailing characters of class `k`.
pub open spec fn trim_with(s: Seq<char>, k: Trim) -> Seq<char> {
    drop_trail(drop_lead(s, k), k)
}

/// `s` without leading and trailing Unicode whitespace.
pub open spec fn trim(s: Seq<char>) -> Seq<char> {
    trim_with(s, Trim::Space)
}

/// The bounds of `s[lo..hi]` trimmed of class `k`.
pub fn trim_span(s: &[char], lo: usize, hi: usize, k: Trim) -> (r: (usize, usize))
    requires
        lo <= hi <= s@.len(),
    ensures
        lo <= r.0 <= r.1 <= hi,
        s@.subrange(r.0 as int, r.1 as int) == trim_with(s@.subrange(lo as int, hi as int), k),
{
    let mut i = lo;
    while i < hi && trims_char(&k, s[i])
        invariant
            lo <= i <= hi <= s@.len(),
            drop_lead(s@.subrange(lo as int, hi as int), k) == drop_lead(s@.subrange(i as int, hi as int), k),
        decreases hi - i,
    {
        assert(s@.subrange(i as int, hi as int).drop_first() =~= s@.subrange(i + 1, hi as int));
        i += 1;
    }
    assert(drop_lead(s@.subrange(lo as int, hi as int), k) == s@.subrange(i as int, hi as int));
    let mut j = hi;
    while j > i && trims_char(&k, s[j - 1])
        invariant
            lo <= i <= j <= hi <= s@.len(),
            drop_trail(s@.subrange(i as int, hi as int), k) == drop_trail(s@.subrange(i as int, j as int), k),
        decreases j - i,
    {
        assert(s@.subrange(i as int, j as int).drop_last() =~= s@.subrange(i as int, j - 1));
        j -= 1;
    }
    (i, j)
}

// ---------------------------------------------------------------------------
// ASCII case
// ---------------------------------------------------------------------------

pub open spec fn lower(c: char) -> char {
    if 'A' <= c && c <= 'Z' {
        ((c as u32) + 32) as char
    } else {
        c
    }
}

/// `s` with ASCII upper-case letters mapped to lower case.
pub open spec fn ascii_lower(s: Seq<char>) -> Seq<char> {
    s.map_values(|c: char| lower(c))
}

/// Equality up to ASCII case (`str::eq_ignore_ascii_case`).
pub open spec fn eq_ic(a: Seq<char>, b: Seq<char>) -> bool {
    ascii_lower(a) == ascii_lower(b)
}

pub fn lower_char(c: char) -> (r: char)
    ensures
        r == lower(c),
{
    if 'A' <= c && c <= 'Z' {
        let b: u8 = c as u8;
        (b + 32) as char
    } else {
        c
    }
}

/// Whether `s[lo..hi]`, lower-cased, is exactly `lit`.
pub fn span_lower_is(s: &[char], lo: usize, hi: usize, lit: &str) -> (r: bool)
    requires
        lo <= hi <= s@.len(),
    ensures
        r == (ascii_lower(s@.subrange(lo as int, hi as int)) == lit@),
{
    let l = chars_of(lit);
    let ghost sub = s@.subrange(lo as int, hi as int);
    if hi - lo != l.len() {
        return false;
    }
    let mut i: usize = 0;
    while i < l.len()
        invariant
            hi - lo == l@.len(),
            l@ == lit@,
            lo <= hi <= s@.len(),
            sub == s@.subrange(lo as int, hi as int),
            i <= l@.len(),
            forall|j: int| 0 <= j < i ==> lower(s@[lo + j]) == l@[j],
        decreases l@.len() - i,
    {
        if lower_char(s[lo + i]) != l[i] {
            assert(ascii_lower(sub)[i as int] == lower(s@[lo + i]));
            assert(ascii_lower(sub) != l@);
            return false;
        }
        i += 1;
    }
    assert(ascii_lower(sub) =~= l@);
    true
}

/// Whether `s[lo..hi]` equals `name` up to ASCII case.
pub fn span_eq_ic(s: &[char], lo: usize, hi: usize, name: &[char]) -> (r: bool)
    requires
        lo <= hi <= s@.len(),
    ensures
        r == eq_ic(s@.subrange(lo as int, hi as int), name@),
{
    let ghost sub = s@.subrange(lo as int, hi as int);
    if hi - lo != name.len() {
        assert(ascii_lower(sub).len() != ascii_lower(name@).len());
        return false;
    }
    let mut i: usize = 0;
    while i < name.len()
        invariant
            hi - lo == name@.len(),
            lo <= hi <= s@.len(),
            sub == s@.subrange(lo as int, hi as int),
            i <= name@.len(),
            forall|j: int| 0 <= j < i ==> lower(s@[lo + j]) == lower(name@[j]),
        decreases name@.len() - i,
    {
        if lower_char(s[lo + i]) != lower_char(name[i]) {
            assert(ascii_lower(sub)[i as int] != ascii_lower(name@)[i as int]);
            return false;
        }
        i += 1;
    }
    assert(ascii_lower(sub) =~= ascii_lower(name@));
    true
}

// ---------------------------------------------------------------------------
// Lossy decoding
// ---------------------------------------------------------------------------

/// What `String::from_utf8_lossy` makes of a byte sequence: the decoded
/// text with each invalid sequence replaced by U+FFFD.
pub uninterp spec fn lossy_utf8(bytes: Seq<u8>) -> Seq<char>;

/// Calls `String::from_utf8_lossy`.  The contract names the result, and states
/// what its documentation promises: valid UTF-8 decodes to exactly its text.
#[verifier::external_body]
fn from_utf8_lossy(data: &[u8]) -> (s: String)
    ensures
        s@ == lossy_utf8(data@),
        valid_utf8(data@) ==> s@ == decode_utf8(data@),
{
    String::from_utf8_lossy(data).into_owned()
}

pub open spec fn nul_to_space(c: char) -> char {
    if c == '\0' {
        ' '
    } else {
        c
    }
}

/// The text of a byte buffer: lossy UTF-8 decoding with NUL shown as a space.
pub open spec fn lossy_text(bytes: Seq<u8>) -> Seq<char> {
    lossy_utf8(bytes).map_values(|c: char| nul_to_space(c))
}

/// The characters of [`lossy_text`], as a buffer.
pub fn lossy_chars(data: &[u8]) -> (v: Vec<char>)
    ensures
        v@ == lossy_text(data@),
        valid_utf8(data@) ==> v@ == decode_utf8(data@).map_values(|c: char| nul_to_space(c)),
{
    let s = from_utf8_lossy(data);
    let cs = chars_of(s.as_str());
    let mut v: Vec<char> = Vec::new();
    let mut i: usize = 0;
    while i < cs.len()
        invariant
            i <= cs@.len(),
            cs@ == lossy_utf8(data@),
            v@ == cs@.take(i as int).map_values(|c: char| nul_to_space(c)),
        decreases cs@.len() - i,
    {
        let c = cs[i];
        v.push(if c == '\0' { ' ' } else { c });
        assert(cs@.take(i + 1) =~= cs@.take(i as int).push(c));
        assert(v@ =~= cs@.take(i + 1).map_values(|c: char| nul_to_space(c)));
        i += 1;
    }
    assert(cs@.take(cs@.len() as int) =~= cs@);
    v
}

/// The characters of `String::from_utf8_lossy(data)`.
pub fn lossy_raw_chars(data: &[u8]) -> (v: Vec<char>)
    ensures
        v@ == lossy_utf8(data@),
{
    let s = from_utf8_lossy(data);
    chars_of(s.as_str())
}

pub fn as_lossy_text(data: &[u8]) -> (r: String)
    ensures
        r@ == lossy_text(data@),
        valid_utf8(data@) ==> r@ == decode_utf8(data@).map_values(|c: char| nul_to_space(c)),
{
    let v = lossy_chars(data);
    string_of_all(&v)
}

// ---------------------------------------------------------------------------
// Lines
// ---------------------------------------------------------------------------

/// Index of the first `'\n'` at or after `pos`, or the length.
pub open spec fn line_end(t: Seq<char>, pos: int) -> int
    decreases t.len() - pos,
{
    if pos >= t.len() {
        t.len() as int
    } else if t[pos] == '\n' {
        pos
    } else {
        line_end(t, pos + 1)
    }
}

pub proof fn lemma_line_end(t: Seq<char>, pos: int)
    requires
        0 <= pos <= t.len(),
    ensures
        pos <= line_end(t, pos) <= t.len(),
        line_end(t, pos) < t.len() ==> t[line_end(t, pos)] == '\n',
        forall|i: int| pos <= i < line_end(t, pos) ==> t[i] != '\n',
    decreases t.len() - pos,
{
    if pos < t.len() && t[pos] != '\n' {
        lemma_line_end(t, pos + 1);
    }
}

/// The line that starts at `pos` (as `str::lines` yields it: without the
/// `'\n'`, and without a `'\r'` just before that `'\n'`).
pub open spec fn line_at(t: Seq<char>, pos: int) -> Seq<char> {
    let e = line_end(t, pos);
    let raw = t.subrange(pos, e);
    if e < t.len() && raw.len() > 0 && raw.last() == '\r' {
        raw.drop_last()
    } else {
        raw
    }
}

/// Where the line after the one at `pos` starts.
pub open spec fn next_line(t: Seq<char>, pos: int) -> int {
    let e = line_end(t, pos);
    if e < t.len() {
        e + 1
    } else {
        t.len() as int
    }
}

/// Finds the line that starts at `pos`: its bounds and where the next starts.
pub fn line_bounds(t: &[char], pos: usize) -> (r: (usize, usize, usize))
    requires
        pos < t@.len(),
    ensures
        r.0 == pos,
        pos <= r.1 <= t@.len(),
        t@.subrange(r.0 as int, r.1 as int) == line_at(t@, pos as int),
        r.2 == next_line(t@, pos as int),
        pos < r.2 <= t@.len(),
{
    let mut e = pos;
    while e < t.len() && t[e] != '\n'
        invariant
            pos <= e <= t@.len(),
            line_end(t@, pos as int) == line_end(t@, e as int),
        decreases t@.len() - e,
    {
        e += 1;
    }
    proof {
        lemma_line_end(t@, pos as int);
    }
    let next = if e < t.len() { e + 1 } else { t.len() };
    let mut hi = e;
    if e < t.len() && e > pos && t[e - 1] == '\r' {
        hi = e - 1;
        assert(t@.subrange(pos as int, e as int).drop_last() =~= t@.subrange(pos as int, hi as int));
    }
    (pos, hi, next)
}

// ---------------------------------------------------------------------------
// Records
// ---------------------------------------------------------------------------

/// Index of the first whitespace character at or after `i`, or the length.
pub open spec fn ws_from(s: Seq<char>, i: int) -> int
    decreases s.len() - i,
{
    if i >= s.len() {
        s.len() as int
    } else if is_ws(s[i]) {
        i
    } else {
        ws_from(s, i + 1)
    }
}

pub proof fn lemma_ws_from(s: Seq<char>, i: int)
    requires
        0 <= i <= s.len(),
    ensures
        i <= ws_from(s, i) <= s.len(),
        ws_from(s, i) < s.len() ==> is_ws(s[ws_from(s, i)]),
        forall|j: int| i <= j < ws_from(s, i) ==> !is_ws(s[j]),
    decreases s.len() - i,
{
    if i < s.len() && !is_ws(s[i]) {
        lemma_ws_from(s, i + 1);
    }
}

/// A record line split into its kind word and the rest: `None` for blank
/// lines and `#` comments.
pub open spec fn spec_split_record(line: Seq<char>) -> Option<(Seq<char>, Seq<char>)> {
    let l = trim(line);
    if l.len() == 0 || l[0] == '#' {
        None
    } else {
        let k = ws_from(l, 0);
        let head = l.subrange(0, k);
        let rest = if k < l.len() {
            trim(l.subrange(k + 1, l.len() as int))
        } else {
            Seq::empty()
        };
        Some((head, rest))
    }
}

/// A span `(start, end)` of character positions.
pub type Span = (usize, usize);

pub open spec fn span_of(t: Seq<char>, s: Span) -> Seq<char> {
    t.subrange(s.0 as int, s.1 as int)
}

/// First position `j` in `lo..hi` with `t[j]` whitespace, or `hi`.
fn ws_scan(t: &[char], lo: usize, hi: usize) -> (r: usize)
    requires
        lo <= hi <= t@.len(),
    ensures
        lo <= r <= hi,
        r == lo + ws_from(t@.subrange(lo as int, hi as int), 0),
{
    let ghost sub = t@.subrange(lo as int, hi as int);
    let mut j = lo;
    while j < hi && !is_ws_char(t[j])
        invariant
            lo <= j <= hi <= t@.len(),
            sub == t@.subrange(lo as int, hi as int),
            ws_from(sub, 0) == ws_from(sub, j - lo),
        decreases hi - j,
    {
        assert(sub[j - lo] == t@[j as int]);
        j += 1;
    }
    if j < hi {
        assert(sub[j - lo] == t@[j as int]);
    }
    j
}

/// The kind word and rest of the record `t[lo..hi]`, as spans of `t`.
pub fn record_spans(t: &[char], lo: usize, hi: usize) -> (r: Option<(Span, Span)>)
    requires
        lo <= hi <= t@.len(),
    ensures
        match r {
            None => spec_split_record(t@.subrange(lo as int, hi as int)) is None,
            Some((h, x)) => {
                &&& lo <= h.0 <= h.1 <= hi
                &&& lo <= x.0 <= x.1 <= hi
                &&& spec_split_record(t@.subrange(lo as int, hi as int)) == Some((span_of(t@, h), span_of(t@, x)))
            },
        },
{
    let (a, b) = trim_span(t, lo, hi, Trim::Space);
    let ghost l = t@.subrange(a as int, b as int);
    if a == b || t[a] == '#' {
        return None;
    }
    let k = ws_scan(t, a, b);
    proof {
        lemma_ws_from(l, 0);
        assert(t@.subrange(a as int, k as int) =~= l.subrange(0, k - a));
    }
    if k < b {
        let (c, d) = trim_span(t, k + 1, b, Trim::Space);
        assert(t@.subrange(k + 1, b as int) =~= l.subrange(k - a + 1, l.len() as int));
        Some(((a, k), (c, d)))
    } else {
        assert(t@.subrange(b as int, b as int) =~= Seq::<char>::empty());
        Some(((a, k), (b, b)))
    }
}

// ---------------------------------------------------------------------------
// key=value pairs
// ---------------------------------------------------------------------------

/// Index of the first `c` at or after `i`, or the length.
pub open spec fn char_from(s: Seq<char>, i: int, c: char) -> int
    decreases s.len() - i,
{
    if i >= s.len() {
        s.len() as int
    } else if s[i] == c {
        i
    } else {
        char_from(s, i + 1, c)
    }
}

pub proof fn lemma_char_from(s: Seq<char>, i: int, c: char)
    requires
        0 <= i <= s.len(),
    ensures
        i <= char_from(s, i, c) <= s.len(),
        char_from(s, i, c) < s.len() ==> s[char_from(s, i, c)] == c,
    decreases s.len() - i,
{
    if i < s.len() && s[i] != c {
        lemma_char_from(s, i + 1, c);
    }
}

/// The pair that one whitespace-free token stands for: the token is trimmed
/// of ASCII whitespace, `,` and `;`, then split at its first `=`.
pub open spec fn pair_of_token(tok: Seq<char>) -> Option<(Seq<char>, Seq<char>)> {
    let c = trim_with(tok, Trim::TokenEdge);
    let e = char_from(c, 0, '=');
    if e < c.len() {
        Some((trim(c.subrange(0, e)), trim_with(c.subrange(e + 1, c.len() as int), Trim::Quote)))
    } else {
        None
    }
}

/// The pairs of the whitespace-separated tokens of `s` from position `i` on.
pub open spec fn pairs_from(s: Seq<char>, i: int) -> Seq<(Seq<char>, Seq<char>)>
    decreases s.len() - i,
{
    if i < 0 || i >= s.len() {
        Seq::empty()
    } else if is_ws(s[i]) {
        pairs_from(s, i + 1)
    } else {
        let e = ws_from(s, i);
        proof {
            lemma_ws_from(s, i);
        }
        match pair_of_token(s.subrange(i, e)) {
            Some(p) => seq![p] + pairs_from(s, e),
            None => pairs_from(s, e),
        }
    }
}

/// The `key=value` pairs of a record's rest, in order.
pub open spec fn spec_parse_pairs(rest: Seq<char>) -> Seq<(Seq<char>, Seq<char>)> {
    pairs_from(rest, 0)
}

/// A pair as two spans of a buffer.
pub type PairSpan = (Span, Span);

pub open spec fn pairs_view(t: Seq<char>, v: Seq<PairSpan>) -> Seq<(Seq<char>, Seq<char>)> {
    Seq::new(v.len(), |i: int| (span_of(t, v[i].0), span_of(t, v[i].1)))
}

pub open spec fn spans_within(v: Seq<PairSpan>, lo: int, hi: int) -> bool {
    forall|i: int|
        0 <= i < v.len() ==> lo <= (#[trigger] v[i]).0.0 <= v[i].0.1 <= hi && lo <= v[i].1.0 <= v[i].1.1
            <= hi
}

/// The pair of the token `t[a..b]`, as spans.
fn token_pair(t: &[char], a: usize, b: usize) -> (r: Option<PairSpan>)
    requires
        a <= b <= t@.len(),
    ensures
        match r {
            None => pair_of_token(t@.subrange(a as int, b as int)) is None,
            Some(p) => {
                &&& a <= p.0.0 <= p.0.1 <= b
                &&& a <= p.1.0 <= p.1.1 <= b
                &&& pair_of_token(t@.subrange(a as int, b as int)) == Some((span_of(t@, p.0), span_of(t@, p.1)))
            },
        },
{
    let (c0, c1) = trim_span(t, a, b, Trim::TokenEdge);
    let ghost c = t@.subrange(c0 as int, c1 as int);
    let mut e = c0;
    while e < c1 && t[e] != '='
        invariant
            c0 <= e <= c1 <= t@.len(),
            c == t@.subrange(c0 as int, c1 as int),
            char_from(c, 0, '=') == char_from(c, e - c0, '='),
        decreases c1 - e,
    {
        assert(c[e - c0] == t@[e as int]);
        e += 1;
    }
    if e < c1 {
        assert(c[e - c0] == t@[e as int]);
        let (k0, k1) = trim_span(t, c0, e, Trim::Space);
        let (v0, v1) = trim_span(t, e + 1, c1, Trim::Quote);
        assert(t@.subrange(c0 as int, e as int) =~= c.subrange(0, e - c0));
        assert(t@.subrange(e + 1, c1 as int) =~= c.subrange(e - c0 + 1, c.len() as int));
        Some(((k0, k1), (v0, v1)))
    } else {
        None
    }
}

/// The pairs of the record rest `t[lo..hi]`, as spans of `t`.
pub fn pair_spans(t: &[char], lo: usize, hi: usize) -> (r: Vec<PairSpan>)
    requires
        lo <= hi <= t@.len(),
    ensures
        spans_within(r@, lo as int, hi as int),
        spans_within(r@, 0, t@.len() as int),
        pairs_view(t@, r@) == spec_parse_pairs(t@.subrange(lo as int, hi as int)),
{
    let ghost sub = t@.subrange(lo as int, hi as int);
    let mut out: Vec<PairSpan> = Vec::new();
    let mut i = lo;
    while i < hi
        invariant
            lo <= i <= hi <= t@.len(),
            sub == t@.subrange(lo as int, hi as int),
            spans_within(out@, lo as int, hi as int),
            pairs_from(sub, 0) == pairs_view(t@, out@) + pairs_from(sub, i - lo),
        decreases hi - i,
    {
        assert(sub[i - lo] == t@[i as int]);
        if is_ws_char(t[i]) {
            i += 1;
        } else {
            let e = ws_scan(t, i, hi);
            proof {
                lemma_ws_from(sub, i - lo);
                lemma_ws_from(t@.subrange(i as int, hi as int), 0);
                assert forall|j: int| i - lo <= j < e - lo implies !is_ws(sub[j]) by {
                    assert(sub[j] == t@.subrange(i as int, hi as int)[j - (i - lo)]);
                }
                if e < hi {
                    assert(sub[e - lo] == t@.subrange(i as int, hi as int)[e - i]);
                }
                lemma_ws_from_is(sub, i - lo, e - lo);
                assert(t@.subrange(i as int, e as int) =~= sub.subrange(i - lo, e - lo));
            }
            match token_pair(t, i, e) {
                Some(p) => {
                    let ghost before = out@;
                    out.push(p);
                    assert(pairs_view(t@, out@) =~= pairs_view(t@, before) + seq![(span_of(t@, p.0), span_of(t@, p.1))]);
                    assert(pairs_view(t@, out@) + pairs_from(sub, e - lo) =~= pairs_view(t@, before) + (seq![(span_of(t@, p.0), span_of(t@, p.1))] + pairs_from(sub, e - lo)));
                },
                None => {},
            }
            i = e;
        }
    }
    assert(pairs_view(t@, out@) + Seq::empty() =~= pairs_view(t@, out@));
    assert(spans_within(out@, 0, t@.len() as int));
    out
}

/// `ws_from` stops at the first whitespace: any position with only
/// non-whitespace before it and whitespace (or the end) at it is the answer.
proof fn lemma_ws_from_is(s: Seq<char>, i: int, e: int)
    requires
        0 <= i <= e <= s.len(),
        forall|j: int| i <= j < e ==> !is_ws(s[j]),
        e < s.len() ==> is_ws(s[e]),
    ensures
        ws_from(s, i) == e,
    decreases e - i,
{
    if i < e {
        lemma_ws_from_is(s, i + 1, e);
    }
}

/// The value of the first pair whose key equals `name` up to ASCII case.
pub open spec fn find_pair_from(pairs: Seq<(Seq<char>, Seq<char>)>, name: Seq<char>, i: int) -> Option<
    Seq<char>,
>
    decreases pairs.len() - i,
{
    if i < 0 || i >= pairs.len() {
        None
    } else if eq_ic(pairs[i].0, name) {
        Some(pairs[i].1)
    } else {
        find_pair_from(pairs, name, i + 1)
    }
}

pub open spec fn spec_find_pair(pairs: Seq<(Seq<char>, Seq<char>)>, name: Seq<char>) -> Option<Seq<char>> {
    find_pair_from(pairs, name, 0)
}

/// The value span of the first pair whose key is `name` (up to ASCII case).
pub fn find_span(t: &[char], pairs: &Vec<PairSpan>, name: &str) -> (r: Option<Span>)
    requires
        spans_within(pairs@, 0, t@.len() as int),
    ensures
        match r {
            None => spec_find_pair(pairs_view(t@, pairs@), name@) is None,
            Some(v) => {
                &&& v.0 <= v.1 <= t@.len()
                &&& spec_find_pair(pairs_view(t@, pairs@), name@) == Some(span_of(t@, v))
                &&& exists|i: int| 0 <= i < pairs@.len() && pairs@[i].1 == v
            },
        },
{
    let n = chars_of(name);
    let ghost pv = pairs_view(t@, pairs@);
    let mut i: usize = 0;
    while i < pairs.len()
        invariant
            i <= pairs@.len(),
            n@ == name@,
            pv == pairs_view(t@, pairs@),
            spans_within(pairs@, 0, t@.len() as int),
            find_pair_from(pv, name@, 0) == find_pair_from(pv, name@, i as int),
        decreases pairs@.len() - i,
    {
        let p = pairs[i];
        if span_eq_ic(t, p.0.0, p.0.1, &n) {
            return Some(p.1);
        }
        i += 1;
    }
    None
}

// ---------------------------------------------------------------------------
// Scalars
// ---------------------------------------------------------------------------

/// The value of a digit in the given radix (10 or 16), as `char::to_digit`.
pub open spec fn digit_value(c: char, radix: nat) -> Option<nat> {
    if '0' <= c && c <= '9' {
        Some(((c as u32) - 48) as nat)
    } else if radix == 16 && 'a' <= c && c <= 'f' {
        Some(((c as u32) - 87) as nat)
    } else if radix == 16 && 'A' <= c && c <= 'F' {
        Some(((c as u32) - 55) as nat)
    } else {
        None
    }
}

pub open spec fn all_digits(s: Seq<char>, radix: nat) -> bool {
    forall|i: int| 0 <= i < s.len() ==> (#[trigger] digit_value(s[i], radix)) is Some
}

/// The number that a digit string denotes.
pub open spec fn digits_value(s: Seq<char>, radix: nat) -> nat
    decreases s.len(),
{
    if s.len() == 0 {
        0
    } else {
        digits_value(s.drop_last(), radix) * radix + match digit_value(s.last(), radix) {
            Some(d) => d,
            None => 0,
        }
    }
}

/// Unsigned integer syntax (as `from_str_radix` for an unsigned type): an
/// optional `+`, then at least one digit, with a value of at most `max`.
pub open spec fn parse_unsigned(s: Seq<char>, radix: nat, max: nat) -> Option<nat> {
    let d = if s.len() > 0 && s[0] == '+' {
        s.drop_first()
    } else {
        s
    };
    if d.len() == 0 || !all_digits(d, radix) || digits_value(d, radix) > max {
        None
    } else {
        Some(digits_value(d, radix))
    }
}

proof fn lemma_digits_monotone(s: Seq<char>, radix: nat, k: int)
    requires
        0 <= k <= s.len(),
        radix >= 1,
    ensures
        digits_value(s.take(k), radix) <= digits_value(s, radix),
    decreases s.len(),
{
    if k < s.len() {
        assert(s.drop_last().take(k) =~= s.take(k));
        lemma_digits_monotone(s.drop_last(), radix, k);
        let v = digits_value(s.drop_last(), radix);
        assert(v * radix >= v) by (nonlinear_arith)
            requires
                radix >= 1,
        ;
    } else {
        assert(s.take(k) =~= s);
    }
}

/// Reads `t[lo..hi]` as an unsigned number in `radix` no larger than `max`.
fn unsigned_span(t: &[char], lo: usize, hi: usize, radix: u8, max: u64) -> (r: Option<u64>)
    requires
        lo <= hi <= t@.len(),
        radix == 10 || radix == 16,
    ensures
        r == (match parse_unsigned(t@.subrange(lo as int, hi as int), radix as nat, max as nat) {
            Some(v) => Some(v as u64),
            None => None::<u64>,
        }),
{
    let ghost s = t@.subrange(lo as int, hi as int);
    let start = if lo < hi && t[lo] == '+' { lo + 1 } else { lo };
    let ghost d = t@.subrange(start as int, hi as int);
    assert(d =~= (if s.len() > 0 && s[0] == '+' { s.drop_first() } else { s }));
    if start == hi {
        return None;
    }
    let mut acc: u128 = 0;
    let mut i = start;
    while i < hi
        invariant
            start <= i <= hi <= t@.len(),
            radix == 10 || radix == 16,
            d == t@.subrange(start as int, hi as int),
            s == t@.subrange(lo as int, hi as int),
            d == (if s.len() > 0 && s[0] == '+' { s.drop_first() } else { s }),
            d.len() > 0,
            all_digits(d.take(i - start), radix as nat),
            acc == digits_value(d.take(i - start), radix as nat),
            acc <= max,
        decreases hi - i,
    {
        let c = t[i];
        let dv: u128 = if '0' <= c && c <= '9' {
            ((c as u8) - 48) as u128
        } else if radix == 16 && 'a' <= c && c <= 'f' {
            ((c as u8) - 87) as u128
        } else if radix == 16 && 'A' <= c && c <= 'F' {
            ((c as u8) - 55) as u128
        } else {
            proof {
                assert(d[i - start] == c);
                assert(digit_value(d[i - start], radix as nat) is None);
                assert(!all_digits(d, radix as nat));
                assert(parse_unsigned(s, radix as nat, max as nat) is None);
            }
            return None;
        };
        proof {
            assert(d[i - start] == c);
            assert(d.take(i - start + 1).drop_last() =~= d.take(i - start));
            assert(d.take(i - start + 1).last() == c);
            assert forall|j: int| 0 <= j < d.take(i - start + 1).len() implies (#[trigger] digit_value(
                d.take(i - start + 1)[j],
                radix as nat,
            )) is Some by {
                if j < i - start {
                    assert(d.take(i - start + 1)[j] == d.take(i - start)[j]);
                }
            }
            assert(acc * (radix as u128) <= 0x10_0000_0000_0000_0000) by (nonlinear_arith)
                requires
                    acc <= 0xffff_ffff_ffff_ffff,
                    radix <= 16,
            ;
        }
        let ghost prev = acc;
        acc = acc * (radix as u128) + dv;
        i += 1;
        proof {
            let k = i - start;
            assert(d.take(k).drop_last() =~= d.take(k - 1));
            assert(d.take(k).last() == c);
            assert(digit_value(c, radix as nat) == Some(dv as nat));
            assert(digits_value(d.take(k), radix as nat) == digits_value(d.take(k - 1), radix as nat) * (radix as nat) + dv);
            assert(acc == digits_value(d.take(k), radix as nat));
        }
        if acc > max as u128 {
            proof {
                assert(all_digits(d.take(i - start), radix as nat));
                if all_digits(d, radix as nat) {
                    lemma_digits_monotone(d, radix as nat, i - start);
                }
                assert(parse_unsigned(s, radix as nat, max as nat) is None);
            }
            return None;
        }
    }
    assert(d.take(i - start) =~= d);
    Some(acc as u64)
}

/// What `parse_u32` makes of a field: a `0x` prefix selects hexadecimal.
pub open spec fn spec_parse_u32(value: Seq<char>) -> core::result::Result<u32, ErrorView> {
    let v = trim(value);
    if v.len() >= 2 && v[0] == '0' && v[1] == 'x' {
        match parse_unsigned(v.subrange(2, v.len() as int), 16, u32::MAX as nat) {
            Some(n) => Ok(n as u32),
            None => Err(diag(Severity::Medium, "invalid hex integer"@)),
        }
    } else {
        match parse_unsigned(v, 10, u32::MAX as nat) {
            Some(n) => Ok(n as u32),
            None => Err(diag(Severity::Medium, "invalid integer"@)),
        }
    }
}

pub open spec fn result_view<T>(r: core::result::Result<T, IronfleetError>) -> core::result::Result<T, ErrorView> {
    match r {
        Ok(v) => Ok(v),
        Err(e) => Err(e@),
    }
}

/// `parse_u32` on the field `t[lo..hi]`.
pub fn u32_span(t: &[char], lo: usize, hi: usize) -> (r: core::result::Result<u32, IronfleetError>)
    requires
        lo <= hi <= t@.len(),
    ensures
        result_view(r) == spec_parse_u32(t@.subrange(lo as int, hi as int)),
{
    let (a, b) = trim_span(t, lo, hi, Trim::Space);
    let ghost v = t@.subrange(a as int, b as int);
    if b - a >= 2 && t[a] == '0' && t[a + 1] == 'x' {
        assert(t@.subrange(a + 2, b as int) =~= v.subrange(2, v.len() as int));
        match unsigned_span(t, a + 2, b, 16, 0xffff_ffff) {
            Some(n) => Ok(n as u32),
            None => Err(IronfleetError::medium("invalid hex integer")),
        }
    } else {
        match unsigned_span(t, a, b, 10, 0xffff_ffff) {
            Some(n) => Ok(n as u32),
            None => Err(IronfleetError::medium("invalid integer")),
        }
    }
}

/// `str::parse::<u16>` on `t[lo..hi]` (no trimming).
pub fn u16_span(t: &[char], lo: usize, hi: usize) -> (r: Option<u16>)
    requires
        lo <= hi <= t@.len(),
    ensures
        r == (match parse_unsigned(t@.subrange(lo as int, hi as int), 10, u16::MAX as nat) {
            Some(v) => Some(v as u16),
            None => None::<u16>,
        }),
{
    match unsigned_span(t, lo, hi, 10, 0xffff) {
        Some(n) => Some(n as u16),
        None => None,
    }
}

/// What `parse_i64` makes of a field: an optional sign and decimal digits.
pub open spec fn spec_parse_i64(value: Seq<char>) -> core::result::Result<i64, ErrorView> {
    let v = trim(value);
    let neg = v.len() > 0 && v[0] == '-';
    let d = if v.len() > 0 && (v[0] == '+' || v[0] == '-') {
        v.drop_first()
    } else {
        v
    };
    if d.len() == 0 || !all_digits(d, 10) || (!neg && digits_value(d, 10) > i64::MAX) || (neg
        && digits_value(d, 10) > 0x8000_0000_0000_0000) {
        Err(diag(Severity::Medium, "invalid signed integer"@))
    } else if neg {
        Ok((0 - digits_value(d, 10)) as i64)
    } else {
        Ok(digits_value(d, 10) as i64)
    }
}

/// What `parse_bool` makes of a field.
pub open spec fn spec_parse_bool(value: Seq<char>) -> bool {
    let v = ascii_lower(trim(value));
    v == "1"@ || v == "true"@ || v == "yes"@ || v == "on"@ || v == "deep"@ || v == "enabled"@
}

/// `parse_bool` on the field `t[lo..hi]`.
pub fn bool_span(t: &[char], lo: usize, hi: usize) -> (r: bool)
    requires
        lo <= hi <= t@.len(),
    ensures
        r == spec_parse_bool(t@.subrange(lo as int, hi as int)),
{
    let (a, b) = trim_span(t, lo, hi, Trim::Space);
    span_lower_is(t, a, b, "1") || span_lower_is(t, a, b, "true") || span_lower_is(t, a, b, "yes")
        || span_lower_is(t, a, b, "on") || span_lower_is(t, a, b, "deep") || span_lower_is(
        t,
        a,
        b,
        "enabled",
    )
}

/// The value of a hexadecimal digit.
pub open spec fn hex_nibble(c: char) -> Option<u8> {
    match digit_value(c, 16) {
        Some(v) => Some(v as u8),
        None => None,
    }
}

/// Separators that a byte field may hold between digits.
pub open spec fn is_hex_sep(c: char) -> bool {
    c == ':' || c == '-' || c == '_' || c == ' ' || c == ','
}

/// After reading `s`: the bytes completed and a pending high nibble, or
/// `None` once a character that is neither digit nor separator was seen.
pub open spec fn hex_state(s: Seq<char>) -> Option<(Seq<u8>, Option<u8>)>
    decreases s.len(),
{
    if s.len() == 0 {
        Some((Seq::empty(), None))
    } else {
        match hex_state(s.drop_last()) {
            None => None,
            Some((out, high)) => {
                let c = s.last();
                if is_hex_sep(c) {
                    Some((out, high))
                } else {
                    match hex_nibble(c) {
                        None => None,
                        Some(v) => match high {
                            Some(h) => Some((out.push((h * 16 + v) as u8), None)),
                            None => Some((out, Some(v))),
                        },
                    }
                }
            },
        }
    }
}

/// What `hex_to_bytes` makes of a byte field: pairs of hex digits, a lone
/// last digit taken as a high nibble.
pub open spec fn spec_hex_to_bytes(s: Seq<char>) -> core::result::Result<Seq<u8>, ErrorView> {
    match hex_state(s) {
        None => Err(diag(Severity::Medium, "non-hex digit in byte field"@)),
        Some((out, None)) => Ok(out),
        Some((out, Some(h))) => Ok(out.push((h * 16) as u8)),
    }
}

pub open spec fn bytes_result_view(r: core::result::Result<Vec<u8>, IronfleetError>) -> core::result::Result<
    Seq<u8>,
    ErrorView,
> {
    match r {
        Ok(v) => Ok(v@),
        Err(e) => Err(e@),
    }
}

/// `hex_to_bytes` on the field `t[lo..hi]`.
pub fn hex_span(t: &[char], lo: usize, hi: usize) -> (r: core::result::Result<Vec<u8>, IronfleetError>)
    requires
        lo <= hi <= t@.len(),
    ensures
        bytes_result_view(r) == spec_hex_to_bytes(t@.subrange(lo as int, hi as int)),
{
    let ghost s = t@.subrange(lo as int, hi as int);
    let mut out: Vec<u8> = Vec::new();
    let mut high: Option<u8> = None;
    let mut i = lo;
    while i < hi
        invariant
            lo <= i <= hi <= t@.len(),
            s == t@.subrange(lo as int, hi as int),
            hex_state(s.take(i - lo)) == Some((out@, high)),
            high matches Some(h) ==> h < 16,
        decreases hi - i,
    {
        let c = t[i];
        proof {
            assert(s.take(i - lo + 1).drop_last() =~= s.take(i - lo));
            assert(s.take(i - lo + 1).last() == c);
        }
        if c == ':' || c == '-' || c == '_' || c == ' ' || c == ',' {
            i += 1;
            continue;
        }
        let v: u8 = if '0' <= c && c <= '9' {
            (c as u8) - 48
        } else if 'a' <= c && c <= 'f' {
            (c as u8) - 87
        } else if 'A' <= c && c <= 'F' {
            (c as u8) - 55
        } else {
            proof {
                lemma_hex_state_stuck(s, i - lo + 1);
            }
            return Err(IronfleetError::medium("non-hex digit in byte field"));
        };
        match high {
            Some(h) => {
                out.push(h * 16 + v);
                high = None;
            },
            None => {
                high = Some(v);
            },
        }
        i += 1;
    }
    assert(s.take(i - lo) =~= s);
    match high {
        Some(h) => {
            out.push(h * 16);
        },
        None => {},
    }
    Ok(out)
}

/// Each completed byte takes two digits, a pending nibble one.
pub proof fn lemma_hex_state_len(s: Seq<char>)
    ensures
        hex_state(s) matches Some((out, high)) ==> 2 * out.len() + (if high is Some { 1int } else { 0int }) <= s.len(),
    decreases s.len(),
{
    if s.len() > 0 {
        lemma_hex_state_len(s.drop_last());
    }
}

/// A byte field decodes to no more bytes than it has characters.
pub proof fn lemma_hex_len(s: Seq<char>)
    ensures
        spec_hex_to_bytes(s) matches Ok(v) ==> v.len() <= s.len(),
{
    lemma_hex_state_len(s);
}

/// Once the state is stuck it stays stuck.
proof fn lemma_hex_state_stuck(s: Seq<char>, k: int)
    requires
        0 <= k <= s.len(),
        hex_state(s.take(k)) is None,
    ensures
        hex_state(s) is None,
    decreases s.len() - k,
{
    if k < s.len() {
        assert(s.take(k + 1).drop_last() =~= s.take(k));
        lemma_hex_state_stuck(s, k + 1);
    } else {
        assert(s.take(k) =~= s);
    }
}

/// The character that `\c` stands for.
pub open spec fn escaped(c: char) -> char {
    if c == 'n' {
        '\n'
    } else if c == 'r' {
        '\r'
    } else if c == 't' {
        '\t'
    } else {
        c
    }
}

/// After reading `s`: the text produced and whether a `\` is pending.
pub open spec fn unescape_state(s: Seq<char>) -> (Seq<char>, bool)
    decreases s.len(),
{
    if s.len() == 0 {
        (Seq::empty(), false)
    } else {
        let (out, esc) = unescape_state(s.drop_last());
        let c = s.last();
        if esc {
            (out.push(escaped(c)), false)
        } else if c == '\\' {
            (out, true)
        } else {
            (out.push(c), false)
        }
    }
}

/// What `unquote` makes of a value: surrounding quotes removed, escapes
/// resolved.
pub open spec fn spec_unquote(input: Seq<char>) -> Seq<char> {
    unescape_state(trim_with(input, Trim::Quote)).0
}

/// `unquote` on the field `t[lo..hi]`.
pub fn unquote_span(t: &[char], lo: usize, hi: usize) -> (r: String)
    requires
        lo <= hi <= t@.len(),
    ensures
        r@ == spec_unquote(t@.subrange(lo as int, hi as int)),
{
    let (a, b) = trim_span(t, lo, hi, Trim::Quote);
    let ghost s = t@.subrange(a as int, b as int);
    let mut out = String::new();
    let mut esc = false;
    let mut i = a;
    while i < b
        invariant
            a <= i <= b <= t@.len(),
            s == t@.subrange(a as int, b as int),
            unescape_state(s.take(i - a)) == (out@, esc),
        decreases b - i,
    {
        let c = t[i];
        proof {
            assert(s.take(i - a + 1).drop_last() =~= s.take(i - a));
            assert(s.take(i - a + 1).last() == c);
        }
        if esc {
            let e = if c == 'n' {
                '\n'
            } else if c == 'r' {
                '\r'
            } else if c == 't' {
                '\t'
            } else {
                c
            };
            push_char(&mut out, e);
            esc = false;
        } else if c == '\\' {
            esc = true;
        } else {
            push_char(&mut out, c);
        }
        i += 1;
    }
    assert(s.take(i - a) =~= s);
    out
}

// ---------------------------------------------------------------------------
// The `str` interface
// ---------------------------------------------------------------------------

/// A token with ASCII whitespace, `,` and `;` removed from both ends.
pub fn clean_token(input: &str) -> (r: &str)
    ensures
        r@ == trim_with(input@, Trim::TokenEdge),
{
    let cs = chars_of(input);
    let (a, b) = trim_span(&cs, 0, cs.len(), Trim::TokenEdge);
    assert(cs@.subrange(0, cs@.len() as int) =~= cs@);
    input.substring_char(a, b)
}

pub fn split_record(line: &str) -> (r: Option<(&str, &str)>)
    ensures
        match r {
            None => spec_split_record(line@) is None,
            Some((h, x)) => spec_split_record(line@) == Some((h@, x@)),
        },
{
    let cs = chars_of(line);
    assert(cs@.subrange(0, cs@.len() as int) =~= cs@);
    match record_spans(&cs, 0, cs.len()) {
        None => None,
        Some((h, x)) => Some((line.substring_char(h.0, h.1), line.substring_char(x.0, x.1))),
    }
}

pub open spec fn str_pairs_view(v: Seq<(&str, &str)>) -> Seq<(Seq<char>, Seq<char>)> {
    Seq::new(v.len(), |i: int| (v[i].0@, v[i].1@))
}

pub fn parse_pairs(rest: &str) -> (r: Vec<(&str, &str)>)
    ensures
        str_pairs_view(r@) == spec_parse_pairs(rest@),
{
    let cs = chars_of(rest);
    assert(cs@.subrange(0, cs@.len() as int) =~= cs@);
    let spans = pair_spans(&cs, 0, cs.len());
    let mut out: Vec<(&str, &str)> = Vec::new();
    let mut i: usize = 0;
    while i < spans.len()
        invariant
            i <= spans@.len(),
            cs@ == rest@,
            spans_within(spans@, 0, cs@.len() as int),
            str_pairs_view(out@) == pairs_view(cs@, spans@).take(i as int),
            out@.len() == i,
        decreases spans@.len() - i,
    {
        let p = spans[i];
        let k = rest.substring_char(p.0.0, p.0.1);
        let v = rest.substring_char(p.1.0, p.1.1);
        let ghost before = out@;
        out.push((k, v));
        proof {
            assert(k@ == span_of(cs@, spans@[i as int].0));
            assert(v@ == span_of(cs@, spans@[i as int].1));
            assert(out@ == before.push((k, v)));
            assert forall|j: int| 0 <= j < out@.len() implies str_pairs_view(out@)[j] == pairs_view(cs@, spans@).take(i + 1)[j] by {
                if j < i {
                    assert(out@[j] == before[j]);
                    assert(str_pairs_view(before)[j] == str_pairs_view(out@)[j]);
                }
            }
            assert(str_pairs_view(out@) =~= pairs_view(cs@, spans@).take(i + 1));
        }
        i += 1;
    }
    assert(pairs_view(cs@, spans@).take(i as int) =~= pairs_view(cs@, spans@));
    out
}

pub fn find_pair<'a>(pairs: &'a [(&'a str, &'a str)], name: &str) -> (r: Option<&'a str>)
    ensures
        match r {
            None => spec_find_pair(str_pairs_view(pairs@), name@) is None,
            Some(v) => spec_find_pair(str_pairs_view(pairs@), name@) == Some(v@),
        },
{
    let n = chars_of(name);
    let ghost pv = str_pairs_view(pairs@);
    let mut i: usize = 0;
    while i < pairs.len()
        invariant
            i <= pairs@.len(),
            n@ == name@,
            pv == str_pairs_view(pairs@),
            find_pair_from(pv, name@, 0) == find_pair_from(pv, name@, i as int),
        decreases pairs@.len() - i,
    {
        let (k, v) = pairs[i];
        let kc = chars_of(k);
        assert(kc@.subrange(0, kc@.len() as int) =~= kc@);
        if span_eq_ic(&kc, 0, kc.len(), &n) {
            return Some(v);
        }
        i += 1;
    }
    None
}

pub fn parse_u32(value: &str) -> (r: crate::error::Result<u32>)
    ensures
        result_view(r) == spec_parse_u32(value@),
{
    let cs = chars_of(value);
    assert(cs@.subrange(0, cs@.len() as int) =~= cs@);
    u32_span(&cs, 0, cs.len())
}

pub fn parse_i64(value: &str) -> (r: crate::error::Result<i64>)
    ensures
        result_view(r) == spec_parse_i64(value@),
{
    let cs = chars_of(value);
    assert(cs@.subrange(0, cs@.len() as int) =~= cs@);
    let (a, b) = trim_span(&cs, 0, cs.len(), Trim::Space);
    match signed_span(&cs, a, b) {
        Some(n) => Ok(n),
        None => Err(IronfleetError::medium("invalid signed integer")),
    }
}

/// The value of a signed decimal integer, `None` when it is not one.
pub open spec fn signed_value(v: Seq<char>) -> Option<i64> {
    let neg = v.len() > 0 && v[0] == '-';
    let d = if v.len() > 0 && (v[0] == '+' || v[0] == '-') {
        v.drop_first()
    } else {
        v
    };
    if d.len() == 0 || !all_digits(d, 10) || (!neg && digits_value(d, 10) > i64::MAX) || (neg
        && digits_value(d, 10) > 0x8000_0000_0000_0000) {
        None
    } else if neg {
        Some((0 - digits_value(d, 10)) as i64)
    } else {
        Some(digits_value(d, 10) as i64)
    }
}

fn signed_span(t: &[char], a: usize, b: usize) -> (r: Option<i64>)
    requires
        a <= b <= t@.len(),
    ensures
        r == signed_value(t@.subrange(a as int, b as int)),
{
    let ghost v = t@.subrange(a as int, b as int);
    let neg = a < b && t[a] == '-';
    let start = if a < b && (t[a] == '+' || t[a] == '-') { a + 1 } else { a };
    let ghost d = t@.subrange(start as int, b as int);
    assert(d =~= (if v.len() > 0 && (v[0] == '+' || v[0] == '-') {
        v.drop_first()
    } else {
        v
    }));
    let max: u64 = if neg { 0x8000_0000_0000_0000 } else { 0x7fff_ffff_ffff_ffff };
    // After the sign a further `+` is not a digit.
    if start < b && t[start] == '+' {
        assert(d[0] == '+');
        assert(digit_value(d[0], 10) is None);
        return None;
    }
    assert(d =~= (if d.len() > 0 && d[0] == '+' { d.drop_first() } else { d }));
    match unsigned_span(t, start, b, 10, max) {
        Some(n) => {
            if neg {
                if n == 0x8000_0000_0000_0000 {
                    Some(-0x7fff_ffff_ffff_ffff - 1)
                } else {
                    Some(-(n as i64))
                }
            } else {
                Some(n as i64)
            }
        },
        None => None,
    }
}

pub fn parse_bool(value: &str) -> (r: bool)
    ensures
        r == spec_parse_bool(value@),
{
    let cs = chars_of(value);
    assert(cs@.subrange(0, cs@.len() as int) =~= cs@);
    bool_span(&cs, 0, cs.len())
}

pub fn hex_to_bytes(input: &str) -> (r: crate::error::Result<Vec<u8>>)
    ensures
        bytes_result_view(r) == spec_hex_to_bytes(input@),
{
    let cs = chars_of(input);
    assert(cs@.subrange(0, cs@.len() as int) =~= cs@);
    hex_span(&cs, 0, cs.len())
}

pub fn unquote(input: &str) -> (r: String)
    ensures
        r@ == spec_unquote(input@),
{
    let cs = chars_of(input);
    assert(cs@.subrange(0, cs@.len() as int) =~= cs@);
    unquote_span(&cs, 0, cs.len())
}

} // verus!
