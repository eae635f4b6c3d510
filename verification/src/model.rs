//! The records that the decoders produce.
//!
//! Fields that hold a floating-point reading (a sensor value, a coordinate,
//! an alert threshold) keep the checked decimal text of the reading; the
//! numeric value is taken from that text outside the library.
use vstd::prelude::*;
use crate::error::{IronfleetError, ErrorView, errs_view};
use crate::checksum::{rotl32, rotate_left32};
use crate::strings::{chars_of, string_of, string_of_all, append_str, push_decimal, decimal, span_is};
use crate::text::{ascii_lower, lower_char, parse_unsigned, u16_span, span_lower_is};

verus! {

/// The views of a sequence of strings.
pub open spec fn strings_view(v: Seq<String>) -> Seq<Seq<char>> {
    v.map_values(|s: String| s@)
}

#[derive(Debug, Clone, PartialEq, Eq)]
pub struct MetadataEntry {
    pub key: String,
    pub value: String,
}

pub struct MetadataView {
    pub key: Seq<char>,
    pub value: Seq<char>,
}

impl View for MetadataEntry {
    type V = MetadataView;

    open spec fn view(&self) -> MetadataView {
        MetadataView { key: self.key@, value: self.value@ }
    }
}

/// A sensor observation; `value` is the decimal text of the reading.
#[derive(Debug, Clone, PartialEq, Eq)]
pub struct SensorSample {
    pub id: String,
    pub value: String,
    pub unit: String,
    pub timestamp: u64,
    pub quality: u8,
}

pub struct SensorView {
    pub id: Seq<char>,
    pub value: Seq<char>,
    pub unit: Seq<char>,
    pub timestamp: u64,
    pub quality: u8,
}

impl View for SensorSample {
    type V = SensorView;

    open spec fn view(&self) -> SensorView {
        SensorView {
            id: self.id@,
            value: self.value@,
            unit: self.unit@,
            timestamp: self.timestamp,
            quality: self.quality,
        }
    }
}

#[derive(Debug, Clone, PartialEq, Eq)]
pub enum TransportProto {
    Tcp,
    Udp,
    Can,
    Mqtt,
    Unknown(String),
}

impl TransportProto {
    /// The protocol's lower-case name.
    pub open spec fn name(&self) -> Seq<char> {
        match self {
            TransportProto::Tcp => "tcp"@,
            TransportProto::Udp => "udp"@,
            TransportProto::Can => "can"@,
            TransportProto::Mqtt => "mqtt"@,
            TransportProto::Unknown(v) => v@,
        }
    }

    /// Reads a protocol name, ignoring ASCII case; other names are kept,
    /// lower-cased, as `Unknown`.
    pub fn parse(input: &str) -> (r: Self)
        ensures
            r.name() == ascii_lower(input@),
            r is Tcp <==> ascii_lower(input@) == "tcp"@,
            r is Udp <==> ascii_lower(input@) == "udp"@,
            r is Can <==> ascii_lower(input@) == "can"@,
            r is Mqtt <==> ascii_lower(input@) == "mqtt"@,
    {
        let cs = chars_of(input);
        assert(cs@.subrange(0, cs@.len() as int) =~= cs@);
        Self::from_span(&cs, 0, cs.len())
    }

    /// `parse` of the name `s[lo..hi]`.
    pub fn from_span(s: &[char], lo: usize, hi: usize) -> (r: Self)
        requires
            lo <= hi <= s@.len(),
        ensures
            r.name() == ascii_lower(s@.subrange(lo as int, hi as int)),
            r is Tcp <==> ascii_lower(s@.subrange(lo as int, hi as int)) == "tcp"@,
            r is Udp <==> ascii_lower(s@.subrange(lo as int, hi as int)) == "udp"@,
            r is Can <==> ascii_lower(s@.subrange(lo as int, hi as int)) == "can"@,
            r is Mqtt <==> ascii_lower(s@.subrange(lo as int, hi as int)) == "mqtt"@,
    {

        proof {
            lemma_proto_names_distinct();
        }
        if span_lower_is(s, lo, hi, "tcp") {
            TransportProto::Tcp
        } else if span_lower_is(s, lo, hi, "udp") {
            TransportProto::Udp
        } else if span_lower_is(s, lo, hi, "can") {
            TransportProto::Can
        } else if span_lower_is(s, lo, hi, "mqtt") {
            TransportProto::Mqtt
        } else {
            let mut low: Vec<char> = Vec::new();
            let mut i = lo;
            while i < hi
                invariant
                    lo <= i <= hi <= s@.len(),
                    low@ == ascii_lower(s@.subrange(lo as int, i as int)),
                decreases hi - i,
            {
                low.push(lower_char(s[i]));
                i += 1;
                assert(low@ =~= ascii_lower(s@.subrange(lo as int, i as int)));
            }
            TransportProto::Unknown(string_of_all(&low))
        }
    }

    pub fn as_str(&self) -> (r: &str)
        ensures
            r@ == self.name(),
    {
        match self {
            TransportProto::Tcp => "tcp",
            TransportProto::Udp => "udp",
            TransportProto::Can => "can",
            TransportProto::Mqtt => "mqtt",
            TransportProto::Unknown(value) => value.as_str(),
        }
    }
}

proof fn lemma_proto_names_distinct()
    ensures
        "tcp"@ != "udp"@,
        "tcp"@ != "can"@,
        "tcp"@ != "mqtt"@,
        "udp"@ != "can"@,
        "udp"@ != "mqtt"@,
        "can"@ != "mqtt"@,
{
    reveal_strlit("tcp");
    reveal_strlit("udp");
    reveal_strlit("can");
    reveal_strlit("mqtt");
    assert("tcp"@[0] != "udp"@[0]);
    assert("tcp"@[1] != "can"@[1]);
    assert("udp"@[0] != "can"@[0]);
}

#[derive(Debug, Clone, PartialEq, Eq)]
pub struct Endpoint {
    pub host: String,
    pub port: u16,
}

/// Index of the last `c` in `s`, or -1.
pub open spec fn last_index_of(s: Seq<char>, c: char) -> int
    decreases s.len(),
{
    if s.len() == 0 {
        -1
    } else if s.last() == c {
        s.len() - 1
    } else {
        last_index_of(s.drop_last(), c)
    }
}

proof fn lemma_last_index_of(s: Seq<char>, c: char)
    ensures
        -1 <= last_index_of(s, c) < s.len(),
    decreases s.len(),
{
    if s.len() > 0 && s.last() != c {
        lemma_last_index_of(s.drop_last(), c);
    }
}

/// The host of `host:port` text (everything before the last `:`).
pub open spec fn endpoint_host(s: Seq<char>) -> Seq<char> {
    let i = last_index_of(s, ':');
    if i >= 0 {
        s.subrange(0, i)
    } else {
        s
    }
}

/// The port of `host:port` text, 0 when absent or not a `u16`.
pub open spec fn endpoint_port(s: Seq<char>) -> u16 {
    let i = last_index_of(s, ':');
    if i >= 0 {
        match parse_unsigned(s.subrange(i + 1, s.len() as int), 10, u16::MAX as nat) {
            Some(p) => p as u16,
            None => 0,
        }
    } else {
        0
    }
}

impl Endpoint {
    pub fn parse(input: &str) -> (r: Self)
        ensures
            r.host@ == endpoint_host(input@),
            r.port == endpoint_port(input@),
    {
        let cs = chars_of(input);
        assert(cs@.subrange(0, cs@.len() as int) =~= cs@);
        Self::from_span(&cs, 0, cs.len())
    }

    /// `parse` of the text `s[lo..hi]`.
    pub fn from_span(s: &[char], lo: usize, hi: usize) -> (r: Self)
        requires
            lo <= hi <= s@.len(),
        ensures
            r.host@ == endpoint_host(s@.subrange(lo as int, hi as int)),
            r.port == endpoint_port(s@.subrange(lo as int, hi as int)),
    {
        let ghost sub = s@.subrange(lo as int, hi as int);
        let mut i = hi;
        assert(sub.subrange(0, hi - lo) =~= sub);
        while i > lo && s[i - 1] != ':'
            invariant
                lo <= i <= hi <= s@.len(),
                sub == s@.subrange(lo as int, hi as int),
                last_index_of(sub, ':') == last_index_of(sub.subrange(0, i - lo), ':'),
            decreases i - lo,
        {
            assert(sub.subrange(0, i - lo).drop_last() =~= sub.subrange(0, i - 1 - lo));
            i -= 1;
        }
        if i > lo {
            assert(sub.subrange(0, i - lo).last() == ':');
            assert(sub.subrange(i - lo, sub.len() as int) =~= s@.subrange(i as int, hi as int));
            assert(sub.subrange(0, i - 1 - lo) =~= s@.subrange(lo as int, i - 1));
            let port = match u16_span(s, i, hi) {
                Some(p) => p,
                None => 0,
            };
            Endpoint { host: string_of(s, lo, i - 1), port }
        } else {
            assert(sub.subrange(0, 0) =~= Seq::<char>::empty());
            Endpoint { host: string_of(s, lo, hi), port: 0 }
        }
    }

    /// `host:port`.
    pub fn render(&self) -> (r: String)
        ensures
            r@ == self.host@ + ":"@ + decimal(self.port as nat),
    {
        let mut out = String::new();
        append_str(&mut out, self.host.as_str());
        append_str(&mut out, ":");
        push_decimal(&mut out, self.port as u64);
        assert(out@ =~= self.host@ + ":"@ + decimal(self.port as nat));
        out
    }
}

#[derive(Debug, Clone, PartialEq, Eq)]
pub struct RouteLeg {
    pub id: String,
    pub origin: String,
    pub destination: String,
    pub distance_m: u32,
    pub risk: u8,
    pub tags: Vec<String>,
}

pub struct RouteView {
    pub id: Seq<char>,
    pub origin: Seq<char>,
    pub destination: Seq<char>,
    pub distance_m: u32,
    pub risk: u8,
    pub tags: Seq<Seq<char>>,
}

impl View for RouteLeg {
    type V = RouteView;

    open spec fn view(&self) -> RouteView {
        RouteView {
            id: self.id@,
            origin: self.origin@,
            destination: self.destination@,
            distance_m: self.distance_m,
            risk: self.risk,
            tags: strings_view(self.tags@),
        }
    }
}

/// A route waypoint; `lat` and `lon` are the decimal texts of the coordinates.
#[derive(Debug, Clone, PartialEq, Eq)]
pub struct Waypoint {
    pub route: String,
    pub index: u32,
    pub lat: String,
    pub lon: String,
    pub dwell_seconds: u32,
}

pub struct WaypointView {
    pub route: Seq<char>,
    pub index: u32,
    pub lat: Seq<char>,
    pub lon: Seq<char>,
    pub dwell_seconds: u32,
}

impl View for Waypoint {
    type V = WaypointView;

    open spec fn view(&self) -> WaypointView {
        WaypointView {
            route: self.route@,
            index: self.index,
            lat: self.lat@,
            lon: self.lon@,
            dwell_seconds: self.dwell_seconds,
        }
    }
}

#[derive(Debug, Clone, Copy, PartialEq, Eq, Structural)]
pub enum ComparisonOp {
    Less,
    LessEqual,
    Equal,
    NotEqual,
    GreaterEqual,
    Greater,
    Contains,
}

/// The operator that a token spells, if any.
pub open spec fn comparison_named(s: Seq<char>) -> Option<ComparisonOp> {
    if s == "<"@ || s == "lt"@ {
        Some(ComparisonOp::Less)
    } else if s == "<="@ || s == "le"@ {
        Some(ComparisonOp::LessEqual)
    } else if s == "="@ || s == "=="@ || s == "eq"@ {
        Some(ComparisonOp::Equal)
    } else if s == "!="@ || s == "ne"@ {
        Some(ComparisonOp::NotEqual)
    } else if s == ">="@ || s == "ge"@ {
        Some(ComparisonOp::GreaterEqual)
    } else if s == ">"@ || s == "gt"@ {
        Some(ComparisonOp::Greater)
    } else if s == "contains"@ || s == "has"@ {
        Some(ComparisonOp::Contains)
    } else {
        None
    }
}

impl ComparisonOp {
    pub fn parse(input: &str) -> (r: Option<Self>)
        ensures
            r == comparison_named(input@),
    {
        let cs = chars_of(input);
        assert(cs@.subrange(0, cs@.len() as int) =~= cs@);
        Self::from_span(&cs, 0, cs.len())
    }

    /// `parse` of the token `s[lo..hi]`.
    pub fn from_span(s: &[char], lo: usize, hi: usize) -> (r: Option<Self>)
        requires
            lo <= hi <= s@.len(),
        ensures
            r == comparison_named(s@.subrange(lo as int, hi as int)),
    {
        if span_is(s, lo, hi, "<") || span_is(s, lo, hi, "lt") {
            Some(ComparisonOp::Less)
        } else if span_is(s, lo, hi, "<=") || span_is(s, lo, hi, "le") {
            Some(ComparisonOp::LessEqual)
        } else if span_is(s, lo, hi, "=") || span_is(s, lo, hi, "==") || span_is(s, lo, hi, "eq") {
            Some(ComparisonOp::Equal)
        } else if span_is(s, lo, hi, "!=") || span_is(s, lo, hi, "ne") {
            Some(ComparisonOp::NotEqual)
        } else if span_is(s, lo, hi, ">=") || span_is(s, lo, hi, "ge") {
            Some(ComparisonOp::GreaterEqual)
        } else if span_is(s, lo, hi, ">") || span_is(s, lo, hi, "gt") {
            Some(ComparisonOp::Greater)
        } else if span_is(s, lo, hi, "contains") || span_is(s, lo, hi, "has") {
            Some(ComparisonOp::Contains)
        } else {
            None
        }
    }
}

/// An alert rule; `threshold` is the decimal text of the threshold.
#[derive(Debug, Clone, PartialEq, Eq)]
pub struct AlertRule {
    pub id: String,
    pub signal: String,
    pub op: ComparisonOp,
    pub threshold: String,
    pub severity: crate::error::Severity,
    pub hold_seconds: u32,
    pub tags: Vec<String>,
}

pub struct RuleView {
    pub id: Seq<char>,
    pub signal: Seq<char>,
    pub op: ComparisonOp,
    pub threshold: Seq<char>,
    pub severity: crate::error::Severity,
    pub hold_seconds: u32,
    pub tags: Seq<Seq<char>>,
}

impl View for AlertRule {
    type V = RuleView;

    open spec fn view(&self) -> RuleView {
        RuleView {
            id: self.id@,
            signal: self.signal@,
            op: self.op,
            threshold: self.threshold@,
            severity: self.severity,
            hold_seconds: self.hold_seconds,
            tags: strings_view(self.tags@),
        }
    }
}

#[derive(Debug, Clone, PartialEq, Eq)]
pub struct FlowKey {
    pub id: u32,
    pub source: Endpoint,
    pub destination: Endpoint,
    pub protocol: TransportProto,
}

#[derive(Debug, Clone, Copy, PartialEq, Eq, Structural)]
pub struct FlowSummary {
    pub id: u32,
    pub chunks: usize,
    pub bytes: usize,
    pub deferred: usize,
    pub closed: bool,
    pub inspection_score: u64,
}

/// Counts and checksum of a decoded input, with its diagnostics.
#[derive(Debug, Clone)]
pub struct DecodeReport {
    pub diagnostics: Vec<IronfleetError>,
    pub metadata_count: usize,
    pub route_count: usize,
    pub waypoint_count: usize,
    pub sensor_count: usize,
    pub alert_count: usize,
    pub flow_count: usize,
    pub checksum: u32,
}

pub struct ReportView {
    pub diagnostics: Seq<ErrorView>,
    pub metadata_count: nat,
    pub route_count: nat,
    pub waypoint_count: nat,
    pub sensor_count: nat,
    pub alert_count: nat,
    pub flow_count: nat,
    pub checksum: u32,
}

/// The report of nothing: no diagnostics, all counts and the checksum zero.
pub open spec fn empty_report() -> ReportView {
    ReportView {
        diagnostics: Seq::empty(),
        metadata_count: 0,
        route_count: 0,
        waypoint_count: 0,
        sensor_count: 0,
        alert_count: 0,
        flow_count: 0,
        checksum: 0,
    }
}

impl View for DecodeReport {
    type V = ReportView;

    open spec fn view(&self) -> ReportView {
        ReportView {
            diagnostics: errs_view(self.diagnostics@),
            metadata_count: self.metadata_count as nat,
            route_count: self.route_count as nat,
            waypoint_count: self.waypoint_count as nat,
            sensor_count: self.sensor_count as nat,
            alert_count: self.alert_count as nat,
            flow_count: self.flow_count as nat,
            checksum: self.checksum,
        }
    }
}

impl Default for DecodeReport {
    fn default() -> (r: Self)
        ensures
            r@ == empty_report(),
    {
        let r = DecodeReport {
            diagnostics: Vec::new(),
            metadata_count: 0,
            route_count: 0,
            waypoint_count: 0,
            sensor_count: 0,
            alert_count: 0,
            flow_count: 0,
            checksum: 0,
        };
        assert(r@.diagnostics =~= Seq::<ErrorView>::empty());
        r
    }
}

/// The report that combines `a` with `b` after it.
pub open spec fn merged(a: ReportView, b: ReportView) -> ReportView {
    ReportView {
        diagnostics: a.diagnostics + b.diagnostics,
        metadata_count: a.metadata_count + b.metadata_count,
        route_count: a.route_count + b.route_count,
        waypoint_count: a.waypoint_count + b.waypoint_count,
        sensor_count: a.sensor_count + b.sensor_count,
        alert_count: a.alert_count + b.alert_count,
        flow_count: a.flow_count + b.flow_count,
        checksum: rotl32(a.checksum, 5) ^ b.checksum,
    }
}

impl DecodeReport {
    /// Adds `other`'s diagnostics and counts to this report and folds its
    /// checksum in.
    pub fn merge(&mut self, other: DecodeReport)
        requires
            old(self).metadata_count + other.metadata_count <= usize::MAX,
            old(self).route_count + other.route_count <= usize::MAX,
            old(self).waypoint_count + other.waypoint_count <= usize::MAX,
            old(self).sensor_count + other.sensor_count <= usize::MAX,
            old(self).alert_count + other.alert_count <= usize::MAX,
            old(self).flow_count + other.flow_count <= usize::MAX,
        ensures
            final(self)@ == merged(old(self)@, other@),
    {
        let DecodeReport {
            diagnostics,
            metadata_count,
            route_count,
            waypoint_count,
            sensor_count,
            alert_count,
            flow_count,
            checksum,
        } = other;
        self.metadata_count = self.metadata_count + metadata_count;
        self.route_count = self.route_count + route_count;
        self.waypoint_count = self.waypoint_count + waypoint_count;
        self.sensor_count = self.sensor_count + sensor_count;
        self.alert_count = self.alert_count + alert_count;
        self.flow_count = self.flow_count + flow_count;
        self.checksum = rotate_left32(self.checksum, 5) ^ checksum;
        let ghost od = errs_view(diagnostics@);
        let ghost base = errs_view(self.diagnostics@);
        for e in it: diagnostics
            invariant
                it.seq() == diagnostics@,
                errs_view(self.diagnostics@) == base + od.take(it.index() as int),
                od == errs_view(diagnostics@),
                self.metadata_count == old(self).metadata_count + metadata_count,
                self.route_count == old(self).route_count + route_count,
                self.waypoint_count == old(self).waypoint_count + waypoint_count,
                self.sensor_count == old(self).sensor_count + sensor_count,
                self.alert_count == old(self).alert_count + alert_count,
                self.flow_count == old(self).flow_count + flow_count,
                self.checksum == rotl32(old(self).checksum, 5) ^ checksum,
                base == errs_view(old(self).diagnostics@),
        {
            let ghost before = self.diagnostics@;
            self.diagnostics.push(e);
            assert(errs_view(self.diagnostics@) =~= errs_view(before).push(e@));
            assert(od.take(it.index() + 1) =~= od.take(it.index() as int).push(e@));
        }
        assert(od.take(od.len() as int) =~= od);
    }
}

} // verus!
