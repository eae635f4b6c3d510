//! Severities, decoder errors and the ordered list of diagnostics that every
//! decoder accumulates.
use vstd::prelude::*;
use crate::strings::{append_str, push_decimal, decimal};
use crate::text::span_lower_is;

verus! {

/// How serious a diagnostic is, from `Info` (lowest) to `Critical`.
#[derive(Debug, Clone, Copy, PartialEq, Eq, Structural, PartialOrd, Ord, Hash)]
pub enum Severity {
    Info,
    Low,
    Medium,
    High,
    Critical,
}

impl Severity {
    /// Position of the severity in the order `Info < Low < Medium < High < Critical`.
    pub open spec fn rank(self) -> nat {
        match self {
            Severity::Info => 0,
            Severity::Low => 1,
            Severity::Medium => 2,
            Severity::High => 3,
            Severity::Critical => 4,
        }
    }

    /// The lower-case name of the severity.
    pub open spec fn name(self) -> Seq<char> {
        match self {
            Severity::Info => "info"@,
            Severity::Low => "low"@,
            Severity::Medium => "medium"@,
            Severity::High => "high"@,
            Severity::Critical => "critical"@,
        }
    }

    pub fn as_str(self) -> (r: &'static str)
        ensures
            r@ == self.name(),
    {
        match self {
            Severity::Info => "info",
            Severity::Low => "low",
            Severity::Medium => "medium",
            Severity::High => "high",
            Severity::Critical => "critical",
        }
    }

    /// Position of the severity in the order, computed.
    pub fn rank_of(self) -> (r: u8)
        ensures
            r == self.rank(),
    {
        match self {
            Severity::Info => 0,
            Severity::Low => 1,
            Severity::Medium => 2,
            Severity::High => 3,
            Severity::Critical => 4,
        }
    }

    /// Reads a severity name or one of its aliases, ignoring surrounding
    /// whitespace and ASCII case.
    pub fn parse(input: &str) -> (r: Option<Severity>)
        ensures
            r == severity_named(crate::text::ascii_lower(crate::text::trim(input@))),
    {
        let cs = crate::strings::chars_of(input);
        let (lo, hi) = crate::text::trim_span(&cs, 0, cs.len(), crate::text::Trim::Space);
        proof {
            assert(cs@.subrange(0, cs@.len() as int) =~= cs@);
        }
        severity_from_span(&cs, lo, hi)
    }
}

/// The severity that a (lower-cased) name or alias stands for.
pub open spec fn severity_named(s: Seq<char>) -> Option<Severity> {
    if s == "info"@ || s == "note"@ {
        Some(Severity::Info)
    } else if s == "low"@ || s == "minor"@ {
        Some(Severity::Low)
    } else if s == "medium"@ || s == "moderate"@ {
        Some(Severity::Medium)
    } else if s == "high"@ || s == "major"@ {
        Some(Severity::High)
    } else if s == "critical"@ || s == "crit"@ || s == "emergency"@ {
        Some(Severity::Critical)
    } else {
        None
    }
}

/// Reads the severity named by `s[lo..hi]`, ignoring ASCII case.
pub fn severity_from_span(s: &[char], lo: usize, hi: usize) -> (r: Option<Severity>)
    requires
        lo <= hi <= s@.len(),
    ensures
        r == severity_named(crate::text::ascii_lower(s@.subrange(lo as int, hi as int))),
{

    if span_lower_is(s, lo, hi, "info") || span_lower_is(s, lo, hi, "note") {
        Some(Severity::Info)
    } else if span_lower_is(s, lo, hi, "low") || span_lower_is(s, lo, hi, "minor") {
        Some(Severity::Low)
    } else if span_lower_is(s, lo, hi, "medium") || span_lower_is(s, lo, hi, "moderate") {
        Some(Severity::Medium)
    } else if span_lower_is(s, lo, hi, "high") || span_lower_is(s, lo, hi, "major") {
        Some(Severity::High)
    } else if span_lower_is(s, lo, hi, "critical") || span_lower_is(s, lo, hi, "crit")
        || span_lower_is(s, lo, hi, "emergency") {
        Some(Severity::Critical)
    } else {
        None
    }
}

/// A diagnostic: a severity, a message, and optionally the offset (a line
/// number or byte position) and some context text.
#[derive(Debug, Clone, PartialEq, Eq)]
pub struct IronfleetError {
    pub severity: Severity,
    pub message: String,
    pub offset: Option<usize>,
    pub context: Option<String>,
}

/// The mathematical value of an [`IronfleetError`].
pub struct ErrorView {
    pub severity: Severity,
    pub message: Seq<char>,
    pub offset: Option<usize>,
    pub context: Option<Seq<char>>,
}

/// A diagnostic with no offset and no context.
pub open spec fn diag(severity: Severity, message: Seq<char>) -> ErrorView {
    ErrorView { severity, message, offset: None, context: None }
}

impl ErrorView {
    pub open spec fn at(self, offset: usize) -> ErrorView {
        ErrorView { offset: Some(offset), ..self }
    }

    pub open spec fn with_context(self, context: Seq<char>) -> ErrorView {
        ErrorView { context: Some(context), ..self }
    }

    /// The one-line rendering: `severity[ at offset]: message[ (context)]`.
    pub open spec fn rendered(self) -> Seq<char> {
        let head = match self.offset {
            Some(o) => self.severity.name() + " at "@ + decimal(o as nat),
            None => self.severity.name(),
        };
        let tail = match self.context {
            Some(c) => " ("@ + c + ")"@,
            None => Seq::empty(),
        };
        head + ": "@ + self.message + tail
    }
}

impl View for IronfleetError {
    type V = ErrorView;

    open spec fn view(&self) -> ErrorView {
        ErrorView {
            severity: self.severity,
            message: self.message@,
            offset: self.offset,
            context: match self.context {
                Some(c) => Some(c@),
                None => None,
            },
        }
    }
}

/// The views of a sequence of errors.
pub open spec fn errs_view(v: Seq<IronfleetError>) -> Seq<ErrorView> {
    v.map_values(|e: IronfleetError| e@)
}

impl IronfleetError {
    pub fn new(severity: Severity, message: &str) -> (r: Self)
        ensures
            r@ == diag(severity, message@),
    {
        let mut m = String::new();
        append_str(&mut m, message);
        assert(m@ =~= message@);
        IronfleetError { severity, message: m, offset: None, context: None }
    }

    pub fn info(message: &str) -> (r: Self)
        ensures
            r@ == diag(Severity::Info, message@),
    {
        Self::new(Severity::Info, message)
    }

    pub fn low(message: &str) -> (r: Self)
        ensures
            r@ == diag(Severity::Low, message@),
    {
        Self::new(Severity::Low, message)
    }

    pub fn medium(message: &str) -> (r: Self)
        ensures
            r@ == diag(Severity::Medium, message@),
    {
        Self::new(Severity::Medium, message)
    }

    pub fn high(message: &str) -> (r: Self)
        ensures
            r@ == diag(Severity::High, message@),
    {
        Self::new(Severity::High, message)
    }

    pub fn critical(message: &str) -> (r: Self)
        ensures
            r@ == diag(Severity::Critical, message@),
    {
        Self::new(Severity::Critical, message)
    }

    pub fn at(self, offset: usize) -> (r: Self)
        ensures
            r@ == self@.at(offset),
    {
        let mut e = self;
        e.offset = Some(offset);
        e
    }

    pub fn with_context(self, context: String) -> (r: Self)
        ensures
            r@ == self@.with_context(context@),
    {
        let mut e = self;
        e.context = Some(context);
        e
    }

    /// An independent copy with the same view.
    pub fn duplicate(&self) -> (r: Self)
        ensures
            r@ == self@,
    {
        let context = match &self.context {
            Some(c) => Some(c.clone()),
            None => None,
        };
        IronfleetError {
            severity: self.severity,
            message: self.message.clone(),
            offset: self.offset,
            context,
        }
    }

    /// The one-line rendering `severity[ at offset]: message[ (context)]`.
    pub fn to_string(&self) -> (r: String)
        ensures
            r@ == self@.rendered(),
    {
        let mut out = String::new();
        append_str(&mut out, self.severity.as_str());
        match self.offset {
            Some(o) => {
                append_str(&mut out, " at ");
                push_decimal(&mut out, o as u64);
            },
            None => {},
        }
        append_str(&mut out, ": ");
        append_str(&mut out, self.message.as_str());
        match &self.context {
            Some(c) => {
                append_str(&mut out, " (");
                append_str(&mut out, c.as_str());
                append_str(&mut out, ")");
            },
            None => {},
        }
        proof {
            let v = self@;
            let head = match v.offset {
                Some(o) => v.severity.name() + " at "@ + decimal(o as nat),
                None => v.severity.name(),
            };
            let tail = match v.context {
                Some(c) => " ("@ + c + ")"@,
                None => Seq::<char>::empty(),
            };
            assert(out@ =~= head + ": "@ + v.message + tail);
        }
        out
    }
}

pub type Result<T> = core::result::Result<T, IronfleetError>;

/// The diagnostics collected while decoding, in the order they were raised.
#[derive(Debug, Clone, Default, PartialEq, Eq)]
pub struct Diagnostics {
    entries: Vec<IronfleetError>,
}

/// The highest severity in a sequence of diagnostics, if there is one.
pub open spec fn highest_of(s: Seq<ErrorView>) -> Option<Severity>
    decreases s.len(),
{
    if s.len() == 0 {
        None
    } else {
        match highest_of(s.drop_last()) {
            None => Some(s.last().severity),
            Some(h) => if h.rank() >= s.last().severity.rank() { Some(h) } else { Some(s.last().severity) },
        }
    }
}

impl View for Diagnostics {
    type V = Seq<ErrorView>;

    closed spec fn view(&self) -> Seq<ErrorView> {
        errs_view(self.entries@)
    }
}

impl Diagnostics {
    pub fn new() -> (r: Self)
        ensures
            r@ == Seq::<ErrorView>::empty(),
    {
        let r = Diagnostics { entries: Vec::new() };
        assert(r@ =~= Seq::<ErrorView>::empty());
        r
    }

    pub fn push(&mut self, error: IronfleetError)
        ensures
            final(self)@ == old(self)@.push(error@),
    {
        self.entries.push(error);
        assert(self@ =~= old(self)@.push(error@));
    }

    pub fn extend(&mut self, errors: Vec<IronfleetError>)
        ensures
            final(self)@ == old(self)@ + errs_view(errors@),
    {
        let ghost all = errors@;
        let ghost base = self@;
        for e in it: errors
            invariant
                it.seq() == all,
                self@ == base + errs_view(all.take(it.index() as int)),
        {
            proof {
                assert(all.take(it.index() + 1) =~= all.take(it.index() as int).push(e));
            }
            let ghost before = self.entries@;
            self.entries.push(e);
            assert(errs_view(before.push(e)) =~= errs_view(before).push(e@));
            assert(errs_view(all.take(it.index() + 1)) =~= errs_view(all.take(it.index() as int)).push(e@));
            assert(self@ =~= base + errs_view(all.take(it.index() + 1)));
        }
        assert(all.take(all.len() as int) =~= all);
    }

    pub fn is_empty(&self) -> (r: bool)
        ensures
            r == (self@.len() == 0),
    {
        self.entries.len() == 0
    }

    pub fn len(&self) -> (r: usize)
        ensures
            r == self@.len(),
    {
        self.entries.len()
    }

    /// The diagnostics, in order.
    pub fn iter(&self) -> (r: &[IronfleetError])
        ensures
            errs_view(r@) == self@,
    {
        self.entries.as_slice()
    }

    /// A copy of the diagnostics, in order.
    pub fn to_vec(&self) -> (r: Vec<IronfleetError>)
        ensures
            errs_view(r@) == self@,
    {
        let mut out: Vec<IronfleetError> = Vec::new();
        let mut i: usize = 0;
        while i < self.entries.len()
            invariant
                i <= self.entries@.len(),
                errs_view(out@) == errs_view(self.entries@).take(i as int),
            decreases self.entries@.len() - i,
        {
            let ghost before = out@;
            let e = self.entries[i].duplicate();
            out.push(e);
            assert(errs_view(out@) =~= errs_view(before).push(e@));
            assert(errs_view(self.entries@).take(i + 1) =~= errs_view(self.entries@).take(i as int).push(e@));
            i += 1;
        }
        assert(errs_view(self.entries@).take(i as int) =~= errs_view(self.entries@));
        out
    }

    pub fn into_vec(self) -> (r: Vec<IronfleetError>)
        ensures
            errs_view(r@) == self@,
    {
        self.entries
    }

    /// The highest severity among the diagnostics, `None` when there are none.
    pub fn highest(&self) -> (r: Option<Severity>)
        ensures
            r == highest_of(self@),
    {
        let mut best: Option<Severity> = None;
        let mut i: usize = 0;
        while i < self.entries.len()
            invariant
                i <= self.entries@.len(),
                best == highest_of(errs_view(self.entries@).take(i as int)),
            decreases self.entries@.len() - i,
        {
            let s = self.entries[i].severity;
            proof {
                let v = errs_view(self.entries@);
                assert(v.take(i + 1).drop_last() =~= v.take(i as int));
            }
            best = match best {
                None => Some(s),
                Some(h) => if h.rank_of() >= s.rank_of() { Some(h) } else { Some(s) },
            };
            i += 1;
        }
        assert(errs_view(self.entries@).take(i as int) =~= errs_view(self.entries@));
        best
    }

    /// The rendering of each diagnostic, in order.
    pub fn render_lines(&self) -> (r: Vec<String>)
        ensures
            r@.len() == self@.len(),
            forall|i: int| 0 <= i < r@.len() ==> #[trigger] r@[i]@ == self@[i].rendered(),
    {
        let mut out: Vec<String> = Vec::new();
        let mut i: usize = 0;
        while i < self.entries.len()
            invariant
                i <= self.entries@.len(),
                out@.len() == i,
                forall|j: int| 0 <= j < i ==> #[trigger] out@[j]@ == self.entries@[j]@.rendered(),
            decreases self.entries@.len() - i,
        {
            out.push(self.entries[i].to_string());
            i += 1;
        }
        out
    }
}

} // verus!
