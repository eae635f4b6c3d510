//! Fleet archives (`IFTL/1` documents holding every kind of record) and the
//! format-sniffing entry point that reports on any input.
use vstd::prelude::*;
use vstd::utf8::encode_utf8;
use crate::alert::{
    AlertProgram, ProgramView, spec_alert_rule, spec_sensor_sample, rule_from_pairs, sensor_from_pairs, rules_view,
    empty_program, checked_program, parse_alert_program, spec_alert_program,
};
use crate::checksum::{rolling_tag, rotate_left32, rotl32, tag_acc};
use crate::error::{Diagnostics, IronfleetError, ErrorView, diag, Severity, Result, errs_view};
use crate::frame::{
    FrameKind, FrameView, frames_view, decode_frame_stream, spec_frame_stream, has_prefix, bytes_start_with,
};
use crate::model::{DecodeReport, ReportView, empty_report, MetadataEntry, MetadataView, SensorSample, SensorView};
use crate::route::{
    RouteBook, BookView, spec_route_leg, spec_waypoint, route_from_pairs, waypoint_from_pairs, routes_view,
    waypoints_view, empty_book, validated, parse_route_manifest, spec_route_manifest,
};
use crate::session::{SessionReport, SessionReportView, replay_session_tape, spec_replay};
use crate::strings::{string_of, append_chars, push_char};
use crate::text::{
    PairSpan, spans_within, pairs_view, spec_parse_pairs, spec_find_pair, find_span, pair_spans, record_spans,
    spec_split_record, span_lower_is, ascii_lower, line_at, next_line, line_bounds, lossy_text, lossy_chars,
    lossy_utf8, lossy_raw_chars, spec_unquote, unquote_span,
};

verus! {

/// Everything decoded from an archive.
#[derive(Debug, Clone)]
pub struct FleetDocument {
    pub metadata: Vec<MetadataEntry>,
    pub routes: RouteBook,
    pub sensors: Vec<SensorSample>,
    pub alerts: AlertProgram,
    pub sessions: Vec<SessionReport>,
    pub diagnostics: Diagnostics,
}

pub struct DocView {
    pub metadata: Seq<MetadataView>,
    pub routes: BookView,
    pub sensors: Seq<SensorView>,
    pub alerts: ProgramView,
    pub sessions: Seq<SessionReportView>,
    pub diagnostics: Seq<ErrorView>,
}

pub open spec fn metadata_view(v: Seq<MetadataEntry>) -> Seq<MetadataView> {
    v.map_values(|m: MetadataEntry| m@)
}

pub open spec fn sensors_view(v: Seq<SensorSample>) -> Seq<SensorView> {
    v.map_values(|s: SensorSample| s@)
}

pub open spec fn sessions_view(v: Seq<SessionReport>) -> Seq<SessionReportView> {
    v.map_values(|s: SessionReport| s@)
}

impl View for FleetDocument {
    type V = DocView;

    open spec fn view(&self) -> DocView {
        DocView {
            metadata: metadata_view(self.metadata@),
            routes: self.routes@,
            sensors: sensors_view(self.sensors@),
            alerts: self.alerts@,
            sessions: sessions_view(self.sessions@),
            diagnostics: self.diagnostics@,
        }
    }
}

pub open spec fn empty_doc() -> DocView {
    DocView {
        metadata: Seq::empty(),
        routes: empty_book(),
        sensors: Seq::empty(),
        alerts: empty_program(),
        sessions: Seq::empty(),
        diagnostics: Seq::empty(),
    }
}

impl Default for FleetDocument {
    fn default() -> (r: Self)
        ensures
            r@ == empty_doc(),
    {
        let r = FleetDocument {
            metadata: Vec::new(),
            routes: RouteBook::default(),
            sensors: Vec::new(),
            alerts: AlertProgram::default(),
            sessions: Vec::new(),
            diagnostics: Diagnostics::new(),
        };
        assert(r@.metadata =~= Seq::<MetadataView>::empty());
        assert(r@.sensors =~= Seq::<SensorView>::empty());
        assert(r@.sessions =~= Seq::<SessionReportView>::empty());
        r
    }
}

// ---------------------------------------------------------------------------
// Reports
// ---------------------------------------------------------------------------

/// The checksum that the metadata entries fold into `c`.
pub open spec fn meta_checksum(c: u32, ms: Seq<MetadataView>) -> u32
    decreases ms.len(),
{
    if ms.len() == 0 {
        c
    } else {
        let c0 = meta_checksum(c, ms.drop_last());
        let m = ms.last();
        let c1 = c0 ^ tag_acc(c0, encode_utf8(m.key));
        rotl32(c1, 3) ^ tag_acc(c1, encode_utf8(m.value))
    }
}

/// The sessions' flow counts, summed.
pub open spec fn flow_total(ss: Seq<SessionReportView>) -> nat
    decreases ss.len(),
{
    if ss.len() == 0 {
        0
    } else {
        flow_total(ss.drop_last()) + ss.last().flows.len()
    }
}

/// The sessions' diagnostics, in order.
pub open spec fn session_diags(ss: Seq<SessionReportView>) -> Seq<ErrorView>
    decreases ss.len(),
{
    if ss.len() == 0 {
        Seq::empty()
    } else {
        session_diags(ss.drop_last()) + ss.last().diagnostics
    }
}

/// The sessions' scores folded into `c`.
pub open spec fn session_checksum(c: u32, ss: Seq<SessionReportView>) -> u32
    decreases ss.len(),
{
    if ss.len() == 0 {
        c
    } else {
        session_checksum(c, ss.drop_last()) ^ (ss.last().inspection_score as u32)
    }
}

/// The report of a document.
pub open spec fn spec_report(d: DocView) -> ReportView {
    ReportView {
        diagnostics: d.diagnostics + d.routes.diagnostics + d.alerts.diagnostics + session_diags(d.sessions),
        metadata_count: d.metadata.len(),
        route_count: d.routes.routes.len(),
        waypoint_count: d.routes.waypoints.len(),
        sensor_count: d.sensors.len(),
        alert_count: d.alerts.rules.len(),
        flow_count: flow_total(d.sessions),
        checksum: session_checksum(meta_checksum(0, d.metadata), d.sessions),
    }
}

fn append_errors(out: &mut Vec<IronfleetError>, d: &Diagnostics)
    ensures
        errs_view(final(out)@) == errs_view(old(out)@) + d@,
{
    let v = d.to_vec();
    let ghost all = errs_view(v@);
    let ghost base = errs_view(out@);
    for e in it: v
        invariant
            it.seq() == v@,
            all == errs_view(v@),
            errs_view(out@) == base + all.take(it.index() as int),
    {
        let ghost before = out@;
        out.push(e);
        assert(errs_view(out@) =~= errs_view(before).push(e@));
        assert(all.take(it.index() + 1) =~= all.take(it.index() as int).push(e@));
    }
    assert(all.take(all.len() as int) =~= all);
}

impl FleetDocument {
    /// Counts, checksum and every diagnostic of the document.
    pub fn report(&self) -> (r: DecodeReport)
        requires
            flow_total(self@.sessions) <= usize::MAX,
        ensures
            r@ == spec_report(self@),
    {
        let mut report = DecodeReport::default();
        report.metadata_count = self.metadata.len();
        report.route_count = self.routes.routes.len();
        report.waypoint_count = self.routes.waypoints.len();
        report.sensor_count = self.sensors.len();
        report.alert_count = self.alerts.rules.len();
        let ghost ss = self@.sessions;
        let mut total: usize = 0;
        let mut k: usize = 0;
        while k < self.sessions.len()
            invariant
                k <= self.sessions@.len(),
                ss == self@.sessions,
                flow_total(ss) <= usize::MAX,
                total == flow_total(ss.take(k as int)),
                report@ == (ReportView {
                    metadata_count: self.metadata@.len(),
                    route_count: self.routes.routes@.len(),
                    waypoint_count: self.routes.waypoints@.len(),
                    sensor_count: self.sensors@.len(),
                    alert_count: self.alerts.rules@.len(),
                    ..empty_report()
                }),
            decreases self.sessions@.len() - k,
        {
            assert(ss.take(k + 1).drop_last() =~= ss.take(k as int));
            proof {
                lemma_flow_total_prefix(ss, k + 1);
            }
            total = total + self.sessions[k].flows.len();
            k += 1;
        }
        assert(ss.take(k as int) =~= ss);
        report.flow_count = total;
        let ghost ms = self@.metadata;
        let mut i: usize = 0;
        while i < self.metadata.len()
            invariant
                i <= self.metadata@.len(),
                ms == self@.metadata,
                report.checksum == meta_checksum(0, ms.take(i as int)),
                report@.diagnostics.len() == 0,
                report.metadata_count == self.metadata@.len(),
                report.route_count == self.routes.routes@.len(),
                report.waypoint_count == self.routes.waypoints@.len(),
                report.sensor_count == self.sensors@.len(),
                report.alert_count == self.alerts.rules@.len(),
                report.flow_count == flow_total(ss),
            decreases self.metadata@.len() - i,
        {
            assert(ms.take(i + 1).drop_last() =~= ms.take(i as int));
            let entry = &self.metadata[i];
            report.checksum = report.checksum ^ rolling_tag(report.checksum, entry.key.as_str().as_bytes());
            report.checksum = rotate_left32(report.checksum, 3) ^ rolling_tag(
                report.checksum,
                entry.value.as_str().as_bytes(),
            );
            i += 1;
        }
        assert(ms.take(i as int) =~= ms);
        append_errors(&mut report.diagnostics, &self.diagnostics);
        append_errors(&mut report.diagnostics, &self.routes.diagnostics);
        append_errors(&mut report.diagnostics, &self.alerts.diagnostics);
        let ghost c0 = report.checksum;
        let ghost d0 = errs_view(report.diagnostics@);
        let mut j: usize = 0;
        while j < self.sessions.len()
            invariant
                j <= self.sessions@.len(),
                ss == self@.sessions,
                report.checksum == session_checksum(c0, ss.take(j as int)),
                errs_view(report.diagnostics@) == d0 + session_diags(ss.take(j as int)),
                report.metadata_count == self.metadata@.len(),
                report.route_count == self.routes.routes@.len(),
                report.waypoint_count == self.routes.waypoints@.len(),
                report.sensor_count == self.sensors@.len(),
                report.alert_count == self.alerts.rules@.len(),
                report.flow_count == flow_total(ss),
            decreases self.sessions@.len() - j,
        {
            assert(ss.take(j + 1).drop_last() =~= ss.take(j as int));
            append_errors(&mut report.diagnostics, &self.sessions[j].diagnostics);
            report.checksum = report.checksum ^ (#[verifier::truncate] (self.sessions[j].inspection_score as u32));
            j += 1;
        }
        assert(ss.take(j as int) =~= ss);
        report
    }
}

proof fn lemma_flow_total_prefix(ss: Seq<SessionReportView>, k: int)
    requires
        0 <= k <= ss.len(),
    ensures
        flow_total(ss.take(k)) <= flow_total(ss),
    decreases ss.len(),
{
    if k < ss.len() {
        assert(ss.drop_last().take(k) =~= ss.take(k));
        lemma_flow_total_prefix(ss.drop_last(), k);
    } else {
        assert(ss.take(k) =~= ss);
    }
}

// ---------------------------------------------------------------------------
// Archives
// ---------------------------------------------------------------------------

/// A metadata record: its first pair, with the value unquoted.
pub open spec fn spec_metadata(pairs: Seq<(Seq<char>, Seq<char>)>) -> Option<MetadataView> {
    if pairs.len() > 0 {
        Some(MetadataView { key: pairs[0].0, value: spec_unquote(pairs[0].1) })
    } else {
        None
    }
}

fn metadata_from_pairs(t: &[char], pairs: &Vec<PairSpan>) -> (r: Option<MetadataEntry>)
    requires
        spans_within(pairs@, 0, t@.len() as int),
    ensures
        match r {
            Some(m) => spec_metadata(pairs_view(t@, pairs@)) == Some(m@),
            None => spec_metadata(pairs_view(t@, pairs@)) is None,
        },
{
    if pairs.len() == 0 {
        return None;
    }
    let p = pairs[0];
    Some(MetadataEntry { key: string_of(t, p.0.0, p.0.1), value: unquote_span(t, p.1.0, p.1.1) })
}

/// The session text that the session frames of a stream carry: each frame's
/// payload as text, followed by a line break.
pub open spec fn session_payloads(fs: Seq<FrameView>) -> Seq<char>
    decreases fs.len(),
{
    if fs.len() == 0 {
        Seq::empty()
    } else {
        session_payloads(fs.drop_last()) + if fs.last().kind == FrameKind::Session {
            lossy_utf8(fs.last().payload).push('\n')
        } else {
            Seq::empty()
        }
    }
}

/// The session text that a `frame payload=...` record contributes.
pub open spec fn frame_session_text(pairs: Seq<(Seq<char>, Seq<char>)>) -> Seq<char> {
    match spec_find_pair(pairs, "payload"@) {
        Some(p) => match spec_frame_stream(encode_utf8(p)) {
            Ok(fs) => session_payloads(fs),
            Err(_) => Seq::empty(),
        },
        None => Seq::empty(),
    }
}

/// The decoder's state between archive lines.
pub struct ArchiveState {
    pub doc: DocView,
    pub session: Seq<char>,
    pub saw_header: bool,
}

pub open spec fn doc_diag(a: ArchiveState, e: ErrorView) -> ArchiveState {
    ArchiveState { doc: DocView { diagnostics: a.doc.diagnostics.push(e), ..a.doc }, ..a }
}

pub open spec fn is_session_kind(k: Seq<char>) -> bool {
    k == "flow"@ || k == "data"@ || k == "defer"@ || k == "ack"@ || k == "close"@ || k == "inspect"@ || k
        == "config"@
}

/// One archive line: what it adds to the document and the session text.
pub open spec fn archive_step(a: ArchiveState, line_no: nat, raw: Seq<char>) -> ArchiveState {
    match spec_split_record(raw) {
        None => a,
        Some((kind, rest)) => {
            let k = ascii_lower(kind);
            let pairs = spec_parse_pairs(rest);
            let at = line_no as usize;
            let d = a.doc;
            if k == "iftl/1"@ {
                ArchiveState { saw_header: true, ..a }
            } else if k == "meta"@ {
                match spec_metadata(pairs) {
                    Some(m) => ArchiveState { doc: DocView { metadata: d.metadata.push(m), ..d }, ..a },
                    None => doc_diag(a, diag(Severity::Low, "metadata record has no pairs"@).at(at)),
                }
            } else if k == "route"@ {
                match spec_route_leg(pairs) {
                    Ok(r) => ArchiveState {
                        doc: DocView { routes: BookView { routes: d.routes.routes.push(r), ..d.routes }, ..d },
                        ..a
                    },
                    Err(e) => doc_diag(a, e.at(at)),
                }
            } else if k == "waypoint"@ {
                match spec_waypoint(pairs) {
                    Ok(w) => ArchiveState {
                        doc: DocView { routes: BookView { waypoints: d.routes.waypoints.push(w), ..d.routes }, ..d },
                        ..a
                    },
                    Err(e) => doc_diag(a, e.at(at)),
                }
            } else if k == "sensor"@ {
                match spec_sensor_sample(pairs) {
                    Ok(s) => ArchiveState { doc: DocView { sensors: d.sensors.push(s), ..d }, ..a },
                    Err(e) => doc_diag(a, e.at(at)),
                }
            } else if k == "alert"@ {
                match spec_alert_rule(pairs) {
                    Ok(r) => ArchiveState {
                        doc: DocView { alerts: ProgramView { rules: d.alerts.rules.push(r), ..d.alerts }, ..d },
                        ..a
                    },
                    Err(e) => doc_diag(a, e.at(at)),
                }
            } else if is_session_kind(k) {
                ArchiveState { session: a.session + raw.push('\n'), ..a }
            } else if k == "frame"@ {
                ArchiveState { session: a.session + frame_session_text(pairs), ..a }
            } else if a.saw_header {
                doc_diag(a, diag(Severity::Info, "unknown archive record"@).at(at).with_context(kind))
            } else {
                a
            }
        },
    }
}

/// Reads the archive lines of `t` from `pos` on; more than 4096 metadata
/// entries, 16384 sensor samples or 4096 alert rules are refused.
pub open spec fn archive_from(t: Seq<char>, pos: int, line_no: nat, a: ArchiveState) -> core::result::Result<
    ArchiveState,
    ErrorView,
>
    decreases t.len() - pos,
{
    if pos < 0 || pos >= t.len() {
        Ok(a)
    } else {
        proof {
            crate::text::lemma_line_end(t, pos);
        }
        let next = archive_step(a, line_no, line_at(t, pos));
        if next.doc.metadata.len() > 4096 || next.doc.sensors.len() > 16384 || next.doc.alerts.rules.len() > 4096 {
            Err(diag(Severity::Medium, "archive exceeds decoder limits"@).at(line_no as usize))
        } else {
            archive_from(t, next_line(t, pos), line_no + 1, next)
        }
    }
}

pub open spec fn initial_archive() -> ArchiveState {
    ArchiveState { doc: empty_doc(), session: Seq::empty(), saw_header: false }
}

/// The document once every line is read: the missing-header note, the
/// replayed session text, and the route and alert checks.
pub open spec fn archive_result(byte_len: nat, a: ArchiveState) -> core::result::Result<DocView, ErrorView> {
    let d1 = if !a.saw_header && byte_len > 8 {
        DocView { diagnostics: a.doc.diagnostics.push(diag(Severity::Low, "archive header not present"@)), ..a.doc }
    } else {
        a.doc
    };
    let d2 = if a.session.len() > 0 {
        match spec_replay(encode_utf8(a.session)) {
            Ok(s) => Ok(DocView { sessions: d1.sessions.push(s), ..d1 }),
            Err(e) => Err(e),
        }
    } else {
        Ok(d1)
    };
    match d2 {
        Ok(d) => Ok(DocView { routes: validated(d.routes), alerts: checked_program(d.alerts), ..d }),
        Err(e) => Err(e),
    }
}

/// What `decode_archive` makes of a buffer.
pub open spec fn spec_decode_archive(data: Seq<u8>) -> core::result::Result<DocView, ErrorView> {
    spec_archive_text(lossy_text(data), data.len())
}

/// What `decode_archive_text` makes of an archive decoded to characters from
/// `byte_len` bytes (a headerless archive of more than 8 bytes is noted).
pub open spec fn spec_archive_text(t: Seq<char>, byte_len: nat) -> core::result::Result<DocView, ErrorView> {
    match archive_from(t, 0, 0, initial_archive()) {
        Ok(a) => archive_result(byte_len, a),
        Err(e) => Err(e),
    }
}

pub open spec fn doc_result_view(r: core::result::Result<FleetDocument, IronfleetError>) -> core::result::Result<
    DocView,
    ErrorView,
> {
    match r {
        Ok(d) => Ok(d@),
        Err(e) => Err(e@),
    }
}

struct ArchiveScan {
    doc: FleetDocument,
    session: String,
    saw_header: bool,
}

impl View for ArchiveScan {
    type V = ArchiveState;

    closed spec fn view(&self) -> ArchiveState {
        ArchiveState { doc: self.doc@, session: self.session@, saw_header: self.saw_header }
    }
}

fn frame_session(scan: &mut ArchiveScan, t: &[char], pairs: &Vec<PairSpan>)
    requires
        spans_within(pairs@, 0, t@.len() as int),
    ensures
        final(scan)@ == (ArchiveState { session: old(scan)@.session + frame_session_text(pairs_view(t@, pairs@)), ..old(scan)@ }),
{
    let p = match find_span(t, pairs, "payload") {
        Some(p) => p,
        None => {
            assert(scan@.session + Seq::<char>::empty() =~= scan@.session);
            return;
        },
    };
    let payload = string_of(t, p.0, p.1);
    let frames = match decode_frame_stream(payload.as_str().as_bytes()) {
        Ok(f) => f,
        Err(_) => {
            assert(scan@.session + Seq::<char>::empty() =~= scan@.session);
            return;
        },
    };
    let ghost fv = frames_view(frames@);
    let ghost base = scan@;
    let mut i: usize = 0;
    assert(base.session + session_payloads(fv.take(0)) =~= base.session);
    while i < frames.len()
        invariant
            i <= frames@.len(),
            fv == frames_view(frames@),
            scan@ == (ArchiveState { session: base.session + session_payloads(fv.take(i as int)), ..base }),
        decreases frames@.len() - i,
    {
        assert(fv.take(i + 1).drop_last() =~= fv.take(i as int));
        let ghost before = scan.session@;
        match frames[i].kind {
            FrameKind::Session => {
                let cs = lossy_raw_chars(&frames[i].payload);
                append_chars(&mut scan.session, &cs, 0, cs.len());
                push_char(&mut scan.session, '\n');
                assert(cs@.subrange(0, cs@.len() as int) =~= cs@);
                assert(scan.session@ =~= before + lossy_utf8(fv[i as int].payload).push('\n'));
            },
            _ => {
                assert(before + Seq::<char>::empty() =~= before);
            },
        }
        assert(base.session + session_payloads(fv.take(i + 1)) =~= base.session + session_payloads(fv.take(i as int)) + (if fv[i as int].kind == FrameKind::Session {
            lossy_utf8(fv[i as int].payload).push('\n')
        } else {
            Seq::empty()
        }));
        i += 1;
    }
    assert(fv.take(i as int) =~= fv);
}

fn archive_line(scan: &mut ArchiveScan, t: &[char], lo: usize, hi: usize, line_no: usize)
    requires
        lo <= hi <= t@.len(),
    ensures
        final(scan)@ == archive_step(old(scan)@, line_no as nat, t@.subrange(lo as int, hi as int)),
{
    let (kind, rest) = match record_spans(t, lo, hi) {
        None => {
            return;
        },
        Some(p) => p,
    };
    let pairs = pair_spans(t, rest.0, rest.1);
    if span_lower_is(t, kind.0, kind.1, "iftl/1") {
        scan.saw_header = true;
    } else if span_lower_is(t, kind.0, kind.1, "meta") {
        match metadata_from_pairs(t, &pairs) {
            Some(entry) => {
                let ghost before = scan.doc.metadata@;
                scan.doc.metadata.push(entry);
                assert(metadata_view(scan.doc.metadata@) =~= metadata_view(before).push(entry@));
            },
            None => scan.doc.diagnostics.push(IronfleetError::low("metadata record has no pairs").at(line_no)),
        }
    } else if span_lower_is(t, kind.0, kind.1, "route") {
        match route_from_pairs(t, &pairs) {
            Ok(route) => {
                let ghost before = scan.doc.routes.routes@;
                scan.doc.routes.routes.push(route);
                assert(routes_view(scan.doc.routes.routes@) =~= routes_view(before).push(route@));
            },
            Err(err) => scan.doc.diagnostics.push(err.at(line_no)),
        }
    } else if span_lower_is(t, kind.0, kind.1, "waypoint") {
        match waypoint_from_pairs(t, &pairs) {
            Ok(point) => {
                let ghost before = scan.doc.routes.waypoints@;
                scan.doc.routes.waypoints.push(point);
                assert(waypoints_view(scan.doc.routes.waypoints@) =~= waypoints_view(before).push(point@));
            },
            Err(err) => scan.doc.diagnostics.push(err.at(line_no)),
        }
    } else if span_lower_is(t, kind.0, kind.1, "sensor") {
        match sensor_from_pairs(t, &pairs) {
            Ok(sample) => {
                let ghost before = scan.doc.sensors@;
                scan.doc.sensors.push(sample);
                assert(sensors_view(scan.doc.sensors@) =~= sensors_view(before).push(sample@));
            },
            Err(err) => scan.doc.diagnostics.push(err.at(line_no)),
        }
    } else if span_lower_is(t, kind.0, kind.1, "alert") {
        match rule_from_pairs(t, &pairs) {
            Ok(rule) => {
                let ghost before = scan.doc.alerts.rules@;
                scan.doc.alerts.rules.push(rule);
                assert(rules_view(scan.doc.alerts.rules@) =~= rules_view(before).push(rule@));
            },
            Err(err) => scan.doc.diagnostics.push(err.at(line_no)),
        }
    } else if span_lower_is(t, kind.0, kind.1, "flow") || span_lower_is(t, kind.0, kind.1, "data")
        || span_lower_is(t, kind.0, kind.1, "defer") || span_lower_is(t, kind.0, kind.1, "ack")
        || span_lower_is(t, kind.0, kind.1, "close") || span_lower_is(t, kind.0, kind.1, "inspect")
        || span_lower_is(t, kind.0, kind.1, "config") {
        let ghost before = scan.session@;
        append_chars(&mut scan.session, t, lo, hi);
        push_char(&mut scan.session, '\n');
        assert(scan.session@ =~= before + t@.subrange(lo as int, hi as int).push('\n'));
    } else if span_lower_is(t, kind.0, kind.1, "frame") {
        frame_session(scan, t, &pairs);
    } else {
        if scan.saw_header {
            scan.doc.diagnostics.push(
                IronfleetError::info("unknown archive record").at(line_no).with_context(string_of(t, kind.0, kind.1)),
            );
        }
    }
}

pub fn decode_archive(data: &[u8]) -> (r: Result<FleetDocument>)
    ensures
        doc_result_view(r) == spec_decode_archive(data@),
        r matches Ok(d) ==> d@.sessions.len() <= 1,
{
    let t = lossy_chars(data);
    decode_archive_text(&t, data.len())
}

/// Decodes an archive already decoded to characters from `byte_len` bytes.
pub fn decode_archive_text(t: &[char], byte_len: usize) -> (r: Result<FleetDocument>)
    ensures
        doc_result_view(r) == spec_archive_text(t@, byte_len as nat),
        r matches Ok(d) ==> d@.sessions.len() <= 1,
{
    let mut scan = ArchiveScan { doc: FleetDocument::default(), session: String::new(), saw_header: false };
    let mut pos: usize = 0;
    let mut line_no: usize = 0;
    while pos < t.len()
        invariant
            pos <= t@.len(),
            line_no <= pos,
            scan@.doc.sessions.len() == 0,
            archive_from(t@, 0, 0, initial_archive()) == archive_from(t@, pos as int, line_no as nat, scan@),
        decreases t@.len() - pos,
    {
        let (lo, hi, next) = line_bounds(t, pos);
        archive_line(&mut scan, t, lo, hi, line_no);
        if scan.doc.metadata.len() > 4096 || scan.doc.sensors.len() > 16384 || scan.doc.alerts.rules.len() > 4096 {
            return Err(IronfleetError::medium("archive exceeds decoder limits").at(line_no));
        }
        pos = next;
        line_no += 1;
    }
    let ArchiveScan { doc, session, saw_header } = scan;
    let mut doc = doc;
    if !saw_header && byte_len > 8 {
        doc.diagnostics.push(IronfleetError::low("archive header not present"));
    }
    if session.as_str().unicode_len() > 0 {
        let report = replay_session_tape(session.as_str().as_bytes())?;
        let ghost before = doc.sessions@;
        doc.sessions.push(report);
        assert(sessions_view(doc.sessions@) =~= sessions_view(before).push(report@));
    }
    doc.routes.validate();
    doc.alerts.validate();
    Ok(doc)
}

// ---------------------------------------------------------------------------
// Any input
// ---------------------------------------------------------------------------

/// Whether `pat` occurs in `data`.
pub open spec fn contains_bytes(data: Seq<u8>, pat: Seq<u8>) -> bool {
    exists|i: int| 0 <= i && i + pat.len() <= data.len() && #[trigger] data.subrange(i, i + pat.len()) == pat
}

fn bytes_contain(data: &[u8], pat: &[u8]) -> (r: bool)
    requires
        pat@.len() > 0,
    ensures
        r == contains_bytes(data@, pat@),
{
    let n = data.len();
    let m = pat.len();
    if m > n {
        return false;
    }
    let mut i: usize = 0;
    while i <= n - m
        invariant
            n == data@.len(),
            m == pat@.len(),
            m <= n,
            i <= n - m + 1,
            forall|j: int| 0 <= j < i ==> #[trigger] data@.subrange(j, j + m) != pat@,
        decreases n - i,
    {
        let mut k: usize = 0;
        let mut same = true;
        while k < m
            invariant
                i + m <= n,
                n == data@.len(),
                m == pat@.len(),
                k <= m,
                same == (forall|q: int| 0 <= q < k ==> data@[i + q] == pat@[q]),
            decreases m - k,
        {
            if data[i + k] != pat[k] {
                same = false;
            }
            k += 1;
        }
        if same {
            assert(data@.subrange(i as int, i + m) =~= pat@);
            return true;
        }
        proof {
            let q = choose|q: int| 0 <= q < m && data@[i + q] != pat@[q];
            assert(data@.subrange(i as int, i + m)[q] != pat@[q]);
        }
        i += 1;
    }
    assert forall|j: int| 0 <= j && j + m <= n implies #[trigger] data@.subrange(j, j + m) != pat@ by {
        assert(j < i);
    }
    false
}

/// The report of a frame stream: per-kind counts, XOR of routing tags,
/// notes on unknown kinds and checksum mismatches.
pub open spec fn frames_report(fs: Seq<FrameView>) -> ReportView
    decreases fs.len(),
{
    if fs.len() == 0 {
        empty_report()
    } else {
        let r = frames_report(fs.drop_last());
        let f = fs.last();
        let r1 = ReportView { checksum: r.checksum ^ f.routing_tag, ..r };
        let r2 = match f.kind {
            FrameKind::Metadata => ReportView { metadata_count: r1.metadata_count + 1, ..r1 },
            FrameKind::Route => ReportView { route_count: r1.route_count + 1, ..r1 },
            FrameKind::Sensor => ReportView { sensor_count: r1.sensor_count + 1, ..r1 },
            FrameKind::Alert => ReportView { alert_count: r1.alert_count + 1, ..r1 },
            FrameKind::Session => ReportView { flow_count: r1.flow_count + 1, ..r1 },
            FrameKind::Unknown(_) => ReportView {
                diagnostics: r1.diagnostics.push(diag(Severity::Info, "unknown frame kind"@)),
                ..r1
            },
        };
        if !f.checksum_valid {
            ReportView { diagnostics: r2.diagnostics.push(diag(Severity::Low, "frame checksum mismatch"@)), ..r2 }
        } else {
            r2
        }
    }
}

/// The report of an archive.
pub open spec fn archive_any(data: Seq<u8>) -> core::result::Result<ReportView, ErrorView> {
    match spec_decode_archive(data) {
        Ok(d) => Ok(spec_report(d)),
        Err(e) => Err(e),
    }
}

/// The report of a session tape.
pub open spec fn tape_any(data: Seq<u8>) -> core::result::Result<ReportView, ErrorView> {
    match spec_replay(data) {
        Ok(s) => Ok(
            ReportView {
                flow_count: s.flows.len(),
                checksum: s.inspection_score as u32,
                diagnostics: s.diagnostics,
                ..empty_report()
            },
        ),
        Err(e) => Err(e),
    }
}

/// The report of a route manifest.
pub open spec fn manifest_any(data: Seq<u8>) -> core::result::Result<ReportView, ErrorView> {
    match spec_route_manifest(data) {
        Ok(b) => Ok(book_report_view(b)),
        Err(e) => Err(e),
    }
}

/// The report of a route book: its route and waypoint counts, its score as
/// the checksum, and its diagnostics.
pub open spec fn book_report_view(b: BookView) -> ReportView {
    ReportView {
        route_count: b.routes.len(),
        waypoint_count: b.waypoints.len(),
        checksum: b.score,
        diagnostics: b.diagnostics,
        ..empty_report()
    }
}

/// The report of an alert program.
pub open spec fn program_any(data: Seq<u8>) -> core::result::Result<ReportView, ErrorView> {
    match spec_alert_program(data) {
        Ok(p) => Ok(ReportView { alert_count: p.rules.len(), diagnostics: p.diagnostics, ..empty_report() }),
        Err(e) => Err(e),
    }
}

/// The report of a frame stream.
pub open spec fn stream_any(data: Seq<u8>) -> core::result::Result<ReportView, ErrorView> {
    match spec_frame_stream(data) {
        Ok(fs) => Ok(frames_report(fs)),
        Err(e) => Err(e),
    }
}

/// `IFTL/1`
pub open spec fn archive_magic_bytes() -> Seq<u8> {
    seq![73u8, 70u8, 84u8, 76u8, 47u8, 49u8]
}

/// `IFSS/1`
pub open spec fn tape_magic_bytes() -> Seq<u8> {
    seq![73u8, 70u8, 83u8, 83u8, 47u8, 49u8]
}

/// The formats that `decode_any` tells apart.
#[derive(Debug, Clone, Copy, PartialEq, Eq, Structural)]
pub enum InputFormat {
    Archive,
    Tape,
    Manifest,
    Program,
    Stream,
}

/// How `decode_any` reads an input: as an archive (it starts with `IFTL/1`),
/// a session tape (it starts with `IFSS/1` or holds `flow `), a route
/// manifest (it holds `route ` or `waypoint `), an alert program (it holds
/// `alert `), or else a frame stream.
pub open spec fn spec_format(data: Seq<u8>) -> InputFormat {
    if has_prefix(data, archive_magic_bytes()) {
        InputFormat::Archive
    } else if has_prefix(data, tape_magic_bytes()) || contains_bytes(data, seq![102u8, 108u8, 111u8, 119u8, 32u8]) {
        InputFormat::Tape
    } else if contains_bytes(data, seq![114u8, 111u8, 117u8, 116u8, 101u8, 32u8]) || contains_bytes(
        data,
        seq![119u8, 97u8, 121u8, 112u8, 111u8, 105u8, 110u8, 116u8, 32u8],
    ) {
        InputFormat::Manifest
    } else if contains_bytes(data, seq![97u8, 108u8, 101u8, 114u8, 116u8, 32u8]) {
        InputFormat::Program
    } else {
        InputFormat::Stream
    }
}

/// What `decode_any` reports: the input read as its format says.
pub open spec fn spec_decode_any(data: Seq<u8>) -> core::result::Result<ReportView, ErrorView> {
    match spec_format(data) {
        InputFormat::Archive => archive_any(data),
        InputFormat::Tape => tape_any(data),
        InputFormat::Manifest => manifest_any(data),
        InputFormat::Program => program_any(data),
        InputFormat::Stream => stream_any(data),
    }
}

pub open spec fn report_result_view(r: core::result::Result<DecodeReport, IronfleetError>) -> core::result::Result<
    ReportView,
    ErrorView,
> {
    match r {
        Ok(d) => Ok(d@),
        Err(e) => Err(e@),
    }
}

fn diags_vec(d: Diagnostics) -> (r: Vec<IronfleetError>)
    ensures
        errs_view(r@) == d@,
{
    d.into_vec()
}

fn frame_report(frames: &Vec<crate::frame::Frame>) -> (r: DecodeReport)
    ensures
        r@ == frames_report(frames_view(frames@)),
{
    let ghost fv = frames_view(frames@);
    let mut report = DecodeReport::default();
    let mut i: usize = 0;
    while i < frames.len()
        invariant
            i <= frames@.len(),
            fv == frames_view(frames@),
            report@ == frames_report(fv.take(i as int)),
            report.metadata_count <= i,
            report.route_count <= i,
            report.sensor_count <= i,
            report.alert_count <= i,
            report.flow_count <= i,
        decreases frames@.len() - i,
    {
        assert(fv.take(i + 1).drop_last() =~= fv.take(i as int));
        let frame = &frames[i];
        report.checksum = report.checksum ^ frame.routing_tag;
        match frame.kind {
            FrameKind::Metadata => report.metadata_count = report.metadata_count + 1,
            FrameKind::Route => report.route_count = report.route_count + 1,
            FrameKind::Sensor => report.sensor_count = report.sensor_count + 1,
            FrameKind::Alert => report.alert_count = report.alert_count + 1,
            FrameKind::Session => report.flow_count = report.flow_count + 1,
            FrameKind::Unknown(_) => {
                let ghost before = report.diagnostics@;
                report.diagnostics.push(IronfleetError::info("unknown frame kind"));
                assert(errs_view(report.diagnostics@) =~= errs_view(before).push(diag(Severity::Info, "unknown frame kind"@)));
            },
        }
        if !frame.checksum_valid {
            let ghost before = report.diagnostics@;
            report.diagnostics.push(IronfleetError::low("frame checksum mismatch"));
            assert(errs_view(report.diagnostics@) =~= errs_view(before).push(diag(Severity::Low, "frame checksum mismatch"@)));
        }
        i += 1;
    }
    assert(fv.take(i as int) =~= fv);
    report
}

fn archive_report(data: &[u8]) -> (r: Result<DecodeReport>)
    ensures
        report_result_view(r) == archive_any(data@),
{
    let doc = decode_archive(data)?;
    proof {
        assert(flow_total(doc@.sessions) <= usize::MAX) by {
            reveal_with_fuel(flow_total, 2);
            if doc@.sessions.len() == 1 {
                assert(doc@.sessions.drop_last() =~= Seq::<SessionReportView>::empty());
                assert(doc@.sessions.last() == doc.sessions@[0]@);
                assert(doc.sessions@[0].flows.len() == doc.sessions@[0].flows@.len());
            }
        }
    }
    Ok(doc.report())
}

fn tape_report(data: &[u8]) -> (r: Result<DecodeReport>)
    ensures
        report_result_view(r) == tape_any(data@),
{
    let session = replay_session_tape(data)?;
    let mut report = DecodeReport::default();
    report.flow_count = session.flows.len();
    report.checksum = #[verifier::truncate] (session.inspection_score as u32);
    report.diagnostics = diags_vec(session.diagnostics);
    Ok(report)
}

/// The report of a decoded route book.
pub fn book_report(book: RouteBook) -> (r: DecodeReport)
    ensures
        r@ == book_report_view(book@),
{
    let mut report = DecodeReport::default();
    report.route_count = book.routes.len();
    report.waypoint_count = book.waypoints.len();
    report.checksum = book.score;
    report.diagnostics = diags_vec(book.diagnostics);
    report
}

fn manifest_report(data: &[u8]) -> (r: Result<DecodeReport>)
    ensures
        report_result_view(r) == manifest_any(data@),
{
    let book = parse_route_manifest(data)?;
    Ok(book_report(book))
}

fn program_report(data: &[u8]) -> (r: Result<DecodeReport>)
    ensures
        report_result_view(r) == program_any(data@),
{
    let alerts = parse_alert_program(data)?;
    let mut report = DecodeReport::default();
    report.alert_count = alerts.rules.len();
    report.diagnostics = diags_vec(alerts.diagnostics);
    Ok(report)
}

fn stream_report(data: &[u8]) -> (r: Result<DecodeReport>)
    ensures
        report_result_view(r) == stream_any(data@),
{
    let frames = decode_frame_stream(data)?;
    Ok(frame_report(&frames))
}

/// Tells which format `decode_any` reads `data` as.
pub fn sniff_format(data: &[u8]) -> (r: InputFormat)
    ensures
        r == spec_format(data@),
{
    let tl: [u8; 6] = [73, 70, 84, 76, 47, 49];
    let ss: [u8; 6] = [73, 70, 83, 83, 47, 49];
    let flow: [u8; 5] = [102, 108, 111, 119, 32];
    let route: [u8; 6] = [114, 111, 117, 116, 101, 32];
    let waypoint: [u8; 9] = [119, 97, 121, 112, 111, 105, 110, 116, 32];
    let alert: [u8; 6] = [97, 108, 101, 114, 116, 32];
    assert(tl@ =~= archive_magic_bytes());
    assert(ss@ =~= tape_magic_bytes());
    assert(flow@ =~= seq![102u8, 108u8, 111u8, 119u8, 32u8]);
    assert(route@ =~= seq![114u8, 111u8, 117u8, 116u8, 101u8, 32u8]);
    assert(waypoint@ =~= seq![119u8, 97u8, 121u8, 112u8, 111u8, 105u8, 110u8, 116u8, 32u8]);
    assert(alert@ =~= seq![97u8, 108u8, 101u8, 114u8, 116u8, 32u8]);
    if bytes_start_with(data, &tl) {
        InputFormat::Archive
    } else if bytes_start_with(data, &ss) || bytes_contain(data, &flow) {
        InputFormat::Tape
    } else if bytes_contain(data, &route) || bytes_contain(data, &waypoint) {
        InputFormat::Manifest
    } else if bytes_contain(data, &alert) {
        InputFormat::Program
    } else {
        InputFormat::Stream
    }
}

/// Sniffs the input and decodes it as an archive, a session tape, a route
/// manifest, an alert program or a frame stream, in that order of preference.
pub fn decode_any(data: &[u8]) -> (r: Result<DecodeReport>)
    ensures
        report_result_view(r) == spec_decode_any(data@),
{
    match sniff_format(data) {
        InputFormat::Archive => archive_report(data),
        InputFormat::Tape => tape_report(data),
        InputFormat::Manifest => manifest_report(data),
        InputFormat::Program => program_report(data),
        InputFormat::Stream => stream_report(data),
    }
}

} // verus!
