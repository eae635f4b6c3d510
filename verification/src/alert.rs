//! Alert programs: alert rules, sensor records, and fault references.
use vstd::prelude::*;
use crate::catalog::{signal_precision, signal_by_name, known_fault, fault_by_code};
use crate::error::{Diagnostics, IronfleetError, ErrorView, diag, Severity, severity_named, severity_from_span, Result};
use crate::fields::{
    either, or_default, find_either, text_or, opt_u32, u32_or, opt_u32_ok, u32_ok, opt_decimal,
    decimal_or, spec_tags, tags_of,
};
use crate::model::{AlertRule, RuleView, ComparisonOp, comparison_named, SensorSample, SensorView};
use crate::strings::chars_of;
use crate::text::{
    PairSpan, spans_within, pairs_view, spec_parse_pairs, spec_find_pair, find_span, pair_spans, record_spans,
    spec_split_record, span_lower_is, ascii_lower, trim, trim_span, Trim, line_at, next_line, line_bounds,
    lossy_text, lossy_chars,
};

verus! {

/// What an alert record's pairs describe, or the error in one of its fields.
pub open spec fn spec_alert_rule(pairs: Seq<(Seq<char>, Seq<char>)>) -> core::result::Result<RuleView, ErrorView> {
    let id = or_default(spec_find_pair(pairs, "id"@), "alert-unknown"@);
    let signal = or_default(either(spec_find_pair(pairs, "when"@), spec_find_pair(pairs, "signal"@)), "unknown.signal"@);
    let op = match spec_find_pair(pairs, "op"@) {
        Some(o) => match comparison_named(o) {
            Some(x) => x,
            None => ComparisonOp::Greater,
        },
        None => ComparisonOp::Greater,
    };
    match opt_decimal(either(spec_find_pair(pairs, "value"@), spec_find_pair(pairs, "threshold"@)), "0"@) {
        Err(e) => Err(e),
        Ok(threshold) => {
            let severity = match spec_find_pair(pairs, "severity"@) {
                Some(s) => match severity_named(ascii_lower(trim(s))) {
                    Some(v) => v,
                    None => Severity::Medium,
                },
                None => Severity::Medium,
            };
            match opt_u32(either(spec_find_pair(pairs, "for"@), spec_find_pair(pairs, "hold"@)), 0) {
                Err(e) => Err(e),
                Ok(hold_seconds) => Ok(
                    RuleView {
                        id,
                        signal,
                        op,
                        threshold,
                        severity,
                        hold_seconds,
                        tags: spec_tags(spec_find_pair(pairs, "tags"@)),
                    },
                ),
            }
        },
    }
}

/// What a sensor record's pairs describe, or the error in one of its fields.
pub open spec fn spec_sensor_sample(pairs: Seq<(Seq<char>, Seq<char>)>) -> core::result::Result<SensorView, ErrorView> {
    let id = or_default(spec_find_pair(pairs, "id"@), "unknown.signal"@);
    match opt_decimal(spec_find_pair(pairs, "value"@), "0"@) {
        Err(e) => Err(e),
        Ok(value) => {
            let unit = or_default(spec_find_pair(pairs, "unit"@), Seq::empty());
            match opt_u32(either(spec_find_pair(pairs, "ts"@), spec_find_pair(pairs, "time"@)), 0) {
                Err(e) => Err(e),
                Ok(ts) => match opt_u32(spec_find_pair(pairs, "quality"@), 100) {
                    Err(e) => Err(e),
                    Ok(q) => Ok(
                        SensorView {
                            id,
                            value,
                            unit,
                            timestamp: ts as u64,
                            quality: (if q < 100 { q } else { 100 }) as u8,
                        },
                    ),
                },
            }
        },
    }
}

pub open spec fn rule_result_view(r: core::result::Result<AlertRule, IronfleetError>) -> core::result::Result<
    RuleView,
    ErrorView,
> {
    match r {
        Ok(v) => Ok(v@),
        Err(e) => Err(e@),
    }
}

pub open spec fn sensor_result_view(r: core::result::Result<SensorSample, IronfleetError>) -> core::result::Result<
    SensorView,
    ErrorView,
> {
    match r {
        Ok(v) => Ok(v@),
        Err(e) => Err(e@),
    }
}

/// The alert rule described by the pairs `pairs` of the buffer `t`.
pub fn rule_from_pairs(t: &[char], pairs: &Vec<PairSpan>) -> (r: Result<AlertRule>)
    requires
        spans_within(pairs@, 0, t@.len() as int),
    ensures
        rule_result_view(r) == spec_alert_rule(pairs_view(t@, pairs@)),
{
    let id = text_or(t, find_span(t, pairs, "id"), "alert-unknown");
    let signal = text_or(t, find_either(t, pairs, "when", "signal"), "unknown.signal");
    let op = match find_span(t, pairs, "op") {
        Some(o) => match ComparisonOp::from_span(t, o.0, o.1) {
            Some(x) => x,
            None => ComparisonOp::Greater,
        },
        None => ComparisonOp::Greater,
    };
    let threshold = decimal_or(t, find_either(t, pairs, "value", "threshold"), "0")?;
    let severity = match find_span(t, pairs, "severity") {
        Some(s) => {
            let (a, b) = trim_span(t, s.0, s.1, Trim::Space);
            match severity_from_span(t, a, b) {
                Some(v) => v,
                None => Severity::Medium,
            }
        },
        None => Severity::Medium,
    };
    let hold_seconds = u32_or(t, find_either(t, pairs, "for", "hold"), 0)?;
    let tags = tags_of(t, find_span(t, pairs, "tags"));
    Ok(AlertRule { id, signal, op, threshold, severity, hold_seconds, tags })
}

/// The sensor sample described by the pairs `pairs` of the buffer `t`.
pub fn sensor_from_pairs(t: &[char], pairs: &Vec<PairSpan>) -> (r: Result<SensorSample>)
    requires
        spans_within(pairs@, 0, t@.len() as int),
    ensures
        sensor_result_view(r) == spec_sensor_sample(pairs_view(t@, pairs@)),
{
    let id = text_or(t, find_span(t, pairs, "id"), "unknown.signal");
    let value = decimal_or(t, find_span(t, pairs, "value"), "0")?;
    let unit = text_or(t, find_span(t, pairs, "unit"), "");
    let ts = u32_or(t, find_either(t, pairs, "ts", "time"), 0)?;
    let q = u32_or(t, find_span(t, pairs, "quality"), 100)?;
    let quality: u8 = if q < 100 { q as u8 } else { 100 };
    proof {
        assert(""@ =~= Seq::<char>::empty()) by {
            reveal_strlit("");
        }
    }
    Ok(SensorSample { id, value, unit, timestamp: ts as u64, quality })
}

pub fn parse_alert_line(rest: &str) -> (r: Result<AlertRule>)
    ensures
        rule_result_view(r) == spec_alert_rule(spec_parse_pairs(rest@)),
{
    let t = chars_of(rest);
    assert(t@.subrange(0, t@.len() as int) =~= t@);
    let pairs = pair_spans(&t, 0, t.len());
    rule_from_pairs(&t, &pairs)
}

pub fn parse_sensor_line(rest: &str) -> (r: Result<SensorSample>)
    ensures
        sensor_result_view(r) == spec_sensor_sample(spec_parse_pairs(rest@)),
{
    let t = chars_of(rest);
    assert(t@.subrange(0, t@.len() as int) =~= t@);
    let pairs = pair_spans(&t, 0, t.len());
    sensor_from_pairs(&t, &pairs)
}

/// Alert rules in input order with the diagnostics raised while reading them.
#[derive(Debug, Clone)]
pub struct AlertProgram {
    pub rules: Vec<AlertRule>,
    pub diagnostics: Diagnostics,
}

pub struct ProgramView {
    pub rules: Seq<RuleView>,
    pub diagnostics: Seq<ErrorView>,
}

pub open spec fn rules_view(v: Seq<AlertRule>) -> Seq<RuleView> {
    v.map_values(|r: AlertRule| r@)
}

impl View for AlertProgram {
    type V = ProgramView;

    open spec fn view(&self) -> ProgramView {
        ProgramView { rules: rules_view(self.rules@), diagnostics: self.diagnostics@ }
    }
}

pub open spec fn empty_program() -> ProgramView {
    ProgramView { rules: Seq::empty(), diagnostics: Seq::empty() }
}

impl Default for AlertProgram {
    fn default() -> (r: Self)
        ensures
            r@ == empty_program(),
    {
        let r = AlertProgram { rules: Vec::new(), diagnostics: Diagnostics::new() };
        assert(r@.rules =~= Seq::<RuleView>::empty());
        r
    }
}

/// The diagnostics that one rule raises.
pub open spec fn rule_checks(r: RuleView) -> Seq<ErrorView> {
    let unknown = if signal_precision(r.signal) is None {
        seq![diag(Severity::Low, "alert references unknown signal"@).with_context(r.signal)]
    } else {
        Seq::empty()
    };
    let long = if r.hold_seconds > 86_400 {
        seq![diag(Severity::Medium, "alert hold period exceeds one day"@).with_context(r.id)]
    } else {
        Seq::empty()
    };
    unknown + long
}

pub open spec fn rules_checks(rs: Seq<RuleView>) -> Seq<ErrorView>
    decreases rs.len(),
{
    if rs.len() == 0 {
        Seq::empty()
    } else {
        rules_checks(rs.drop_last()) + rule_checks(rs.last())
    }
}

impl AlertProgram {
    /// Adds the diagnostics of every rule: an unknown signal, and a hold
    /// period longer than a day.
    pub fn validate(&mut self)
        ensures
            final(self)@.rules == old(self)@.rules,
            final(self)@.diagnostics == old(self)@.diagnostics + rules_checks(old(self)@.rules),
    {
        let mut i: usize = 0;
        let ghost base = self@;
        while i < self.rules.len()
            invariant
                i <= self.rules@.len(),
                self@.rules == base.rules,
                self@.diagnostics == base.diagnostics + rules_checks(base.rules.take(i as int)),
            decreases self.rules@.len() - i,
        {
            let ghost before = self@.diagnostics;
            let ghost rv = self.rules@[i as int]@;
            assert(base.rules.take(i + 1).drop_last() =~= base.rules.take(i as int));
            let sig = chars_of(self.rules[i].signal.as_str());
            assert(sig@.subrange(0, sig@.len() as int) =~= sig@);
            if signal_by_name(&sig, 0, sig.len()).is_none() {
                let e = IronfleetError::low("alert references unknown signal").with_context(self.rules[i].signal.clone());
                self.diagnostics.push(e);
            }
            if self.rules[i].hold_seconds > 86_400 {
                let e = IronfleetError::medium("alert hold period exceeds one day").with_context(self.rules[i].id.clone());
                self.diagnostics.push(e);
            }
            assert(self@.diagnostics =~= before + rule_checks(rv));
            i += 1;
        }
        assert(base.rules.take(i as int) =~= base.rules);
    }
}

/// One alert program line: what it adds to the program.
pub open spec fn program_step(p: ProgramView, line_no: nat, line: Seq<char>) -> ProgramView {
    match spec_split_record(line) {
        None => p,
        Some((kind, rest)) => {
            let k = ascii_lower(kind);
            let pairs = spec_parse_pairs(rest);
            let at = line_no as usize;
            if k == "alert"@ {
                match spec_alert_rule(pairs) {
                    Ok(r) => ProgramView { rules: p.rules.push(r), ..p },
                    Err(e) => ProgramView { diagnostics: p.diagnostics.push(e.at(at)), ..p },
                }
            } else if k == "fault"@ {
                match opt_u32_ok(spec_find_pair(pairs, "code"@)) {
                    Some(code) => if !known_fault(code as u16) {
                        ProgramView {
                            diagnostics: p.diagnostics.push(
                                diag(Severity::Low, "unknown fault code in alert program"@).at(at),
                            ),
                            ..p
                        }
                    } else {
                        p
                    },
                    None => p,
                }
            } else {
                p
            }
        },
    }
}

/// Reads the lines of `t` from `pos` on into `p`; more than 4096 rules are
/// refused.
pub open spec fn program_from(t: Seq<char>, pos: int, line_no: nat, p: ProgramView) -> core::result::Result<
    ProgramView,
    ErrorView,
>
    decreases t.len() - pos,
{
    if pos < 0 || pos >= t.len() {
        Ok(p)
    } else {
        proof {
            crate::text::lemma_line_end(t, pos);
        }
        let next = program_step(p, line_no, line_at(t, pos));
        if next.rules.len() > 4096 {
            Err(diag(Severity::Medium, "alert program exceeds decoder limits"@))
        } else {
            program_from(t, next_line(t, pos), line_no + 1, next)
        }
    }
}

/// The program with its rule checks added.
pub open spec fn checked_program(p: ProgramView) -> ProgramView {
    ProgramView { rules: p.rules, diagnostics: p.diagnostics + rules_checks(p.rules) }
}

/// What `parse_alert_program` makes of a buffer.
pub open spec fn spec_alert_program(data: Seq<u8>) -> core::result::Result<ProgramView, ErrorView> {
    spec_alert_text(lossy_text(data))
}

/// What `parse_alert_text` makes of a decoded program.
pub open spec fn spec_alert_text(t: Seq<char>) -> core::result::Result<ProgramView, ErrorView> {
    match program_from(t, 0, 0, empty_program()) {
        Ok(p) => Ok(checked_program(p)),
        Err(e) => Err(e),
    }
}

pub open spec fn program_result_view(r: core::result::Result<AlertProgram, IronfleetError>) -> core::result::Result<
    ProgramView,
    ErrorView,
> {
    match r {
        Ok(p) => Ok(p@),
        Err(e) => Err(e@),
    }
}

fn program_line(program: &mut AlertProgram, t: &[char], lo: usize, hi: usize, line_no: usize)
    requires
        lo <= hi <= t@.len(),
    ensures
        final(program)@ == program_step(old(program)@, line_no as nat, t@.subrange(lo as int, hi as int)),
{
    let (kind, rest) = match record_spans(t, lo, hi) {
        None => {
            return;
        },
        Some(p) => p,
    };
    let pairs = pair_spans(t, rest.0, rest.1);
    if span_lower_is(t, kind.0, kind.1, "alert") {
        match rule_from_pairs(t, &pairs) {
            Ok(rule) => {
                let ghost before = program.rules@;
                program.rules.push(rule);
                assert(rules_view(program.rules@) =~= rules_view(before).push(rule@));
            },
            Err(e) => program.diagnostics.push(e.at(line_no)),
        }
    } else if span_lower_is(t, kind.0, kind.1, "fault") {
        match u32_ok(t, find_span(t, &pairs, "code")) {
            Some(code) => {
                if fault_by_code(code as u16).is_none() {
                    program.diagnostics.push(IronfleetError::low("unknown fault code in alert program").at(line_no));
                }
            },
            None => {},
        }
    }
}

pub fn parse_alert_program(data: &[u8]) -> (r: Result<AlertProgram>)
    ensures
        program_result_view(r) == spec_alert_program(data@),
{
    let t = lossy_chars(data);
    parse_alert_text(&t)
}

/// Parses an alert program already decoded to characters.
pub fn parse_alert_text(t: &[char]) -> (r: Result<AlertProgram>)
    ensures
        program_result_view(r) == spec_alert_text(t@),
{
    let mut program = AlertProgram::default();
    let mut pos: usize = 0;
    let mut line_no: usize = 0;
    while pos < t.len()
        invariant
            pos <= t@.len(),
            line_no <= pos,
            program_from(t@, 0, 0, empty_program()) == program_from(t@, pos as int, line_no as nat, program@),
        decreases t@.len() - pos,
    {
        let (lo, hi, next) = line_bounds(t, pos);
        program_line(&mut program, t, lo, hi, line_no);
        if program.rules.len() > 4096 {
            return Err(IronfleetError::medium("alert program exceeds decoder limits"));
        }
        pos = next;
        line_no += 1;
    }
    program.validate();
    Ok(program)
}

} // verus!
