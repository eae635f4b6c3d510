//! Field access for `key=value` records: defaults, alternative keys, numeric
//! and decimal fields, and `|`-separated tag lists.
use vstd::prelude::*;
use crate::error::{IronfleetError, ErrorView, diag, Severity};
use crate::strings::{string_of, append_str, chars_of};
use crate::text::{
    Span, PairSpan, span_of, spans_within, pairs_view, spec_find_pair, find_span, spec_parse_u32,
    u32_span, result_view, trim, trim_span, Trim, ascii_lower, lower_char, char_from, lemma_char_from,
    eq_ic, span_eq_ic,
};

verus! {

/// `a`, or `b` when `a` is absent (`Option::or_else`).
pub open spec fn either(a: Option<Seq<char>>, b: Option<Seq<char>>) -> Option<Seq<char>> {
    match a {
        Some(v) => Some(v),
        None => b,
    }
}

/// The value, or `d` when it is absent.
pub open spec fn or_default(o: Option<Seq<char>>, d: Seq<char>) -> Seq<char> {
    match o {
        Some(v) => v,
        None => d,
    }
}

pub open spec fn opt_span_view(t: Seq<char>, o: Option<Span>) -> Option<Seq<char>> {
    match o {
        Some(s) => Some(span_of(t, s)),
        None => None,
    }
}

/// The value of key `a`, or else of key `b`.
pub fn find_either(t: &[char], pairs: &Vec<PairSpan>, a: &str, b: &str) -> (r: Option<Span>)
    requires
        spans_within(pairs@, 0, t@.len() as int),
    ensures
        opt_span_view(t@, r) == either(spec_find_pair(pairs_view(t@, pairs@), a@), spec_find_pair(pairs_view(t@, pairs@), b@)),
        r matches Some(s) ==> s.0 <= s.1 <= t@.len(),
{
    match find_span(t, pairs, a) {
        Some(s) => Some(s),
        None => find_span(t, pairs, b),
    }
}

/// The text of a field, or `d` when it is absent.
pub fn text_or(t: &[char], o: Option<Span>, d: &str) -> (r: String)
    requires
        o matches Some(s) ==> s.0 <= s.1 <= t@.len(),
    ensures
        r@ == or_default(opt_span_view(t@, o), d@),
{
    match o {
        Some(s) => string_of(t, s.0, s.1),
        None => {
            let mut r = String::new();
            append_str(&mut r, d);
            assert(r@ =~= d@);
            r
        },
    }
}

/// An optional `u32` field: its value, `d` when absent, or the parse error.
pub open spec fn opt_u32(o: Option<Seq<char>>, d: u32) -> core::result::Result<u32, ErrorView> {
    match o {
        Some(v) => spec_parse_u32(v),
        None => Ok(d),
    }
}

pub fn u32_or(t: &[char], o: Option<Span>, d: u32) -> (r: core::result::Result<u32, IronfleetError>)
    requires
        o matches Some(s) ==> s.0 <= s.1 <= t@.len(),
    ensures
        result_view(r) == opt_u32(opt_span_view(t@, o), d),
{
    match o {
        Some(s) => u32_span(t, s.0, s.1),
        None => Ok(d),
    }
}

/// An optional `u32` field whose parse errors are ignored (`.ok()`).
pub open spec fn opt_u32_ok(o: Option<Seq<char>>) -> Option<u32> {
    match o {
        Some(v) => match spec_parse_u32(v) {
            Ok(n) => Some(n),
            Err(_) => None,
        },
        None => None,
    }
}

pub fn u32_ok(t: &[char], o: Option<Span>) -> (r: Option<u32>)
    requires
        o matches Some(s) ==> s.0 <= s.1 <= t@.len(),
    ensures
        r == opt_u32_ok(opt_span_view(t@, o)),
{
    match o {
        Some(s) => match u32_span(t, s.0, s.1) {
            Ok(n) => Some(n),
            Err(_) => None,
        },
        None => None,
    }
}

// ---------------------------------------------------------------------------
// Decimal (floating-point) fields
// ---------------------------------------------------------------------------

pub open spec fn is_dec(c: char) -> bool {
    '0' <= c && c <= '9'
}

pub open spec fn all_dec(s: Seq<char>) -> bool {
    forall|i: int| 0 <= i < s.len() ==> is_dec(#[trigger] s[i])
}

/// `Digit+ | Digit+ '.' Digit* | Digit* '.' Digit+`.
pub open spec fn mantissa_ok(m: Seq<char>) -> bool {
    let d = char_from(m, 0, '.');
    if d < m.len() {
        all_dec(m.subrange(0, d)) && all_dec(m.subrange(d + 1, m.len() as int)) && (d > 0 || m.len() - d
            - 1 > 0)
    } else {
        m.len() > 0 && all_dec(m)
    }
}

/// `Sign? Digit+`.
pub open spec fn exponent_ok(x: Seq<char>) -> bool {
    let y = if x.len() > 0 && (x[0] == '+' || x[0] == '-') {
        x.drop_first()
    } else {
        x
    };
    y.len() > 0 && all_dec(y)
}

/// Index of the first `e` or `E` at or after `i`, or the length.
pub open spec fn exp_from(s: Seq<char>, i: int) -> int
    decreases s.len() - i,
{
    if i >= s.len() {
        s.len() as int
    } else if s[i] == 'e' || s[i] == 'E' {
        i
    } else {
        exp_from(s, i + 1)
    }
}

/// `Number ::= Mantissa Exp?`.
pub open spec fn number_ok(r: Seq<char>) -> bool {
    let e = exp_from(r, 0);
    if e < r.len() {
        mantissa_ok(r.subrange(0, e)) && exponent_ok(r.subrange(e + 1, r.len() as int))
    } else {
        mantissa_ok(r)
    }
}

/// The syntax that `f64`'s `FromStr` accepts: an optional sign, then `inf`,
/// `infinity` or `nan` in any case, or a decimal number with an optional
/// exponent.
pub open spec fn float_ok(s: Seq<char>) -> bool {
    let r = if s.len() > 0 && (s[0] == '+' || s[0] == '-') {
        s.drop_first()
    } else {
        s
    };
    eq_ic(r, "inf"@) || eq_ic(r, "infinity"@) || eq_ic(r, "nan"@) || number_ok(r)
}

/// What reading a decimal field gives: its trimmed text, or the error.
pub open spec fn spec_decimal(value: Seq<char>) -> core::result::Result<Seq<char>, ErrorView> {
    if float_ok(trim(value)) {
        Ok(trim(value))
    } else {
        Err(diag(Severity::Medium, "invalid floating point value"@))
    }
}

/// An optional decimal field: its text, `d` when absent, or the error.
pub open spec fn opt_decimal(o: Option<Seq<char>>, d: Seq<char>) -> core::result::Result<Seq<char>, ErrorView> {
    match o {
        Some(v) => spec_decimal(v),
        None => Ok(d),
    }
}

pub open spec fn text_result_view(r: core::result::Result<String, IronfleetError>) -> core::result::Result<
    Seq<char>,
    ErrorView,
> {
    match r {
        Ok(s) => Ok(s@),
        Err(e) => Err(e@),
    }
}

fn all_dec_span(t: &[char], lo: usize, hi: usize) -> (r: bool)
    requires
        lo <= hi <= t@.len(),
    ensures
        r == all_dec(t@.subrange(lo as int, hi as int)),
{
    let ghost s = t@.subrange(lo as int, hi as int);
    let mut i = lo;
    while i < hi
        invariant
            lo <= i <= hi <= t@.len(),
            s == t@.subrange(lo as int, hi as int),
            forall|j: int| 0 <= j < i - lo ==> is_dec(#[trigger] s[j]),
        decreases hi - i,
    {
        if !('0' <= t[i] && t[i] <= '9') {
            assert(!is_dec(s[i - lo]));
            return false;
        }
        i += 1;
    }
    true
}

fn mantissa_span(t: &[char], lo: usize, hi: usize) -> (r: bool)
    requires
        lo <= hi <= t@.len(),
    ensures
        r == mantissa_ok(t@.subrange(lo as int, hi as int)),
{
    let ghost m = t@.subrange(lo as int, hi as int);
    let mut d = lo;
    while d < hi && t[d] != '.'
        invariant
            lo <= d <= hi <= t@.len(),
            m == t@.subrange(lo as int, hi as int),
            char_from(m, 0, '.') == char_from(m, d - lo, '.'),
        decreases hi - d,
    {
        assert(m[d - lo] == t@[d as int]);
        d += 1;
    }
    if d < hi {
        assert(m[d - lo] == t@[d as int]);
        assert(m.subrange(0, d - lo) =~= t@.subrange(lo as int, d as int));
        assert(m.subrange(d - lo + 1, m.len() as int) =~= t@.subrange(d + 1, hi as int));
        all_dec_span(t, lo, d) && all_dec_span(t, d + 1, hi) && (d > lo || hi - d - 1 > 0)
    } else {
        hi > lo && all_dec_span(t, lo, hi)
    }
}

fn exponent_span(t: &[char], lo: usize, hi: usize) -> (r: bool)
    requires
        lo <= hi <= t@.len(),
    ensures
        r == exponent_ok(t@.subrange(lo as int, hi as int)),
{
    let ghost x = t@.subrange(lo as int, hi as int);
    let start = if lo < hi && (t[lo] == '+' || t[lo] == '-') { lo + 1 } else { lo };
    assert(t@.subrange(start as int, hi as int) =~= (if x.len() > 0 && (x[0] == '+' || x[0] == '-') {
        x.drop_first()
    } else {
        x
    }));
    hi > start && all_dec_span(t, start, hi)
}

fn number_span(t: &[char], lo: usize, hi: usize) -> (r: bool)
    requires
        lo <= hi <= t@.len(),
    ensures
        r == number_ok(t@.subrange(lo as int, hi as int)),
{
    let ghost s = t@.subrange(lo as int, hi as int);
    let mut e = lo;
    while e < hi && t[e] != 'e' && t[e] != 'E'
        invariant
            lo <= e <= hi <= t@.len(),
            s == t@.subrange(lo as int, hi as int),
            exp_from(s, 0) == exp_from(s, e - lo),
        decreases hi - e,
    {
        assert(s[e - lo] == t@[e as int]);
        e += 1;
    }
    if e < hi {
        assert(s[e - lo] == t@[e as int]);
        assert(s.subrange(0, e - lo) =~= t@.subrange(lo as int, e as int));
        assert(s.subrange(e - lo + 1, s.len() as int) =~= t@.subrange(e + 1, hi as int));
        mantissa_span(t, lo, e) && exponent_span(t, e + 1, hi)
    } else {
        mantissa_span(t, lo, hi)
    }
}

/// Whether `t[lo..hi]` is in `f64` syntax.
pub fn float_span(t: &[char], lo: usize, hi: usize) -> (r: bool)
    requires
        lo <= hi <= t@.len(),
    ensures
        r == float_ok(t@.subrange(lo as int, hi as int)),
{
    let ghost s = t@.subrange(lo as int, hi as int);
    let start = if lo < hi && (t[lo] == '+' || t[lo] == '-') { lo + 1 } else { lo };
    assert(t@.subrange(start as int, hi as int) =~= (if s.len() > 0 && (s[0] == '+' || s[0] == '-') {
        s.drop_first()
    } else {
        s
    }));
    let inf = chars_of("inf");
    let infinity = chars_of("infinity");
    let nan = chars_of("nan");
    span_eq_ic(t, start, hi, &inf) || span_eq_ic(t, start, hi, &infinity) || span_eq_ic(t, start, hi, &nan)
        || number_span(t, start, hi)
}

/// Reads the decimal field `t[lo..hi]`.
pub fn decimal_span(t: &[char], lo: usize, hi: usize) -> (r: core::result::Result<String, IronfleetError>)
    requires
        lo <= hi <= t@.len(),
    ensures
        text_result_view(r) == spec_decimal(t@.subrange(lo as int, hi as int)),
{
    let (a, b) = trim_span(t, lo, hi, Trim::Space);
    if float_span(t, a, b) {
        Ok(string_of(t, a, b))
    } else {
        Err(IronfleetError::medium("invalid floating point value"))
    }
}

pub fn decimal_or(t: &[char], o: Option<Span>, d: &str) -> (r: core::result::Result<String, IronfleetError>)
    requires
        o matches Some(s) ==> s.0 <= s.1 <= t@.len(),
    ensures
        text_result_view(r) == opt_decimal(opt_span_view(t@, o), d@),
{
    match o {
        Some(s) => decimal_span(t, s.0, s.1),
        None => {
            let mut r = String::new();
            append_str(&mut r, d);
            assert(r@ =~= d@);
            Ok(r)
        },
    }
}

// ---------------------------------------------------------------------------
// Tags
// ---------------------------------------------------------------------------

/// The non-empty `|`-separated pieces of `s` from `i` on, lower-cased.
pub open spec fn bar_tags(s: Seq<char>, i: int) -> Seq<Seq<char>>
    decreases s.len() - i,
{
    if i < 0 || i > s.len() {
        Seq::empty()
    } else {
        proof {
            lemma_char_from(s, i, '|');
        }
        let e = char_from(s, i, '|');
        let piece = s.subrange(i, e);
        let head = if piece.len() > 0 {
            seq![ascii_lower(piece)]
        } else {
            Seq::empty()
        };
        if e < s.len() {
            head + bar_tags(s, e + 1)
        } else {
            head
        }
    }
}

/// The tag list of a field (`tags=a|b|c`); empty when absent.
pub open spec fn spec_tags(o: Option<Seq<char>>) -> Seq<Seq<char>> {
    bar_tags(or_default(o, Seq::empty()), 0)
}

fn lower_string(t: &[char], lo: usize, hi: usize) -> (r: String)
    requires
        lo <= hi <= t@.len(),
    ensures
        r@ == ascii_lower(t@.subrange(lo as int, hi as int)),
{
    let mut out = String::new();
    let mut i = lo;
    while i < hi
        invariant
            lo <= i <= hi <= t@.len(),
            out@ == ascii_lower(t@.subrange(lo as int, i as int)),
        decreases hi - i,
    {
        crate::strings::push_char(&mut out, lower_char(t[i]));
        i += 1;
        assert(out@ =~= ascii_lower(t@.subrange(lo as int, i as int)));
    }
    out
}

pub fn tags_of(t: &[char], o: Option<Span>) -> (r: Vec<String>)
    requires
        o matches Some(s) ==> s.0 <= s.1 <= t@.len(),
    ensures
        crate::model::strings_view(r@) == spec_tags(opt_span_view(t@, o)),
{
    let (lo, hi) = match o {
        Some(s) => s,
        None => (0, 0),
    };
    let ghost s = t@.subrange(lo as int, hi as int);
    assert(s =~= or_default(opt_span_view(t@, o), Seq::empty()));
    let mut out: Vec<String> = Vec::new();
    let mut i = lo;
    assert(crate::model::strings_view(out@) + bar_tags(s, 0) =~= bar_tags(s, 0));
    loop
        invariant
            lo <= i <= hi <= t@.len(),
            s == t@.subrange(lo as int, hi as int),
            bar_tags(s, 0) == crate::model::strings_view(out@) + bar_tags(s, i - lo),
            s == or_default(opt_span_view(t@, o), Seq::empty()),
        decreases hi - i,
    {
        let mut e = i;
        while e < hi && t[e] != '|'
            invariant
                lo <= i <= e <= hi <= t@.len(),
                s == t@.subrange(lo as int, hi as int),
                char_from(s, i - lo, '|') == char_from(s, e - lo, '|'),
            decreases hi - e,
        {
            assert(s[e - lo] == t@[e as int]);
            e += 1;
        }
        if e < hi {
            assert(s[e - lo] == t@[e as int]);
        }
        let ghost before = crate::model::strings_view(out@);
        assert(s.subrange(i - lo, e - lo) =~= t@.subrange(i as int, e as int));
        if e > i {
            let piece = lower_string(t, i, e);
            out.push(piece);
            assert(crate::model::strings_view(out@) =~= before.push(piece@));
        }
        if e < hi {
            proof {
                let head = if e > i { seq![ascii_lower(s.subrange(i - lo, e - lo))] } else { Seq::empty() };
                assert(crate::model::strings_view(out@) =~= before + head);
                assert(before + (head + bar_tags(s, e - lo + 1)) =~= before + head + bar_tags(s, e - lo + 1));
            }
            i = e + 1;
        } else {
            proof {
                let head = if e > i { seq![ascii_lower(s.subrange(i - lo, e - lo))] } else { Seq::empty() };
                assert(crate::model::strings_view(out@) =~= before + head);
            }
            return out;
        }
    }
}

} // verus!
