//! Session tapes: flows that accumulate data chunks, deferred segments that
//! are sampled by later inspections, acknowledgements, and closes.
use vstd::prelude::*;
use crate::catalog::{signal_precision, signal_by_name, known_protocol, profile_for_protocol};
use crate::checksum::{ascii_score, rolling_tag, spec_ascii_score, tag_acc, rotl64, rotate_left64};
use crate::error::{Diagnostics, IronfleetError, ErrorView, diag, Severity, Result};
use crate::fields::{either, or_default, opt_span_view, opt_u32_ok};
use crate::model::{Endpoint, FlowKey, FlowSummary, TransportProto};
use crate::strings::{chars_of, string_of, decimal, decimal_string, append_str};
use crate::text::{
    Span, PairSpan, span_of, spans_within, pairs_view, spec_parse_pairs, spec_find_pair, find_pair_from,
    find_span, pair_spans, record_spans, spec_split_record, span_lower_is, span_eq_ic, ascii_lower,
    is_ws, is_ws_char, ws_from, spec_parse_u32, u32_span, spec_parse_bool, bool_span,
    spec_hex_to_bytes, hex_span, lemma_hex_len, line_at, next_line, line_bounds, lossy_text, lossy_chars,
    };

verus! {

// ---------------------------------------------------------------------------
// Positional pairs
// ---------------------------------------------------------------------------

/// Index of the first non-whitespace character at or after `i`, or the length.
pub open spec fn nonws_from(s: Seq<char>, i: int) -> int
    decreases s.len() - i,
{
    if i >= s.len() {
        s.len() as int
    } else if !is_ws(s[i]) {
        i
    } else {
        nonws_from(s, i + 1)
    }
}

/// The first whitespace-separated token.
pub open spec fn first_token(s: Seq<char>) -> Option<Seq<char>> {
    let i = nonws_from(s, 0);
    if 0 <= i < s.len() {
        Some(s.subrange(i, ws_from(s, i)))
    } else {
        None
    }
}

/// The pairs of a session record: its `key=value` pairs, preceded by
/// `id` = the first token when that token has no `=`.
pub open spec fn positional_pairs(rest: Seq<char>) -> Seq<(Seq<char>, Seq<char>)> {
    let ps = spec_parse_pairs(rest);
    match first_token(rest) {
        Some(tok) => if !tok.contains('=') {
            seq![("id"@, tok)] + ps
        } else {
            ps
        },
        None => ps,
    }
}

/// The value of the first pair.
pub open spec fn first_value(pp: Seq<(Seq<char>, Seq<char>)>) -> Option<Seq<char>> {
    if pp.len() > 0 {
        Some(pp[0].1)
    } else {
        None
    }
}

/// The flow id a record names: its `id` (or first) value read as a `u32`, 0
/// when there is none or it does not parse.
pub open spec fn record_id(pp: Seq<(Seq<char>, Seq<char>)>) -> u32 {
    match either(spec_find_pair(pp, "id"@), first_value(pp)) {
        Some(v) => match spec_parse_u32(v) {
            Ok(n) => n,
            Err(_) => 0,
        },
        None => 0,
    }
}

/// The pairs of a record as spans of the buffer: a leading positional id and
/// the `key=value` pairs.
pub struct Fields {
    pub lead: Option<Span>,
    pub pairs: Vec<PairSpan>,
}

pub open spec fn fields_view(t: Seq<char>, f: Fields) -> Seq<(Seq<char>, Seq<char>)> {
    match f.lead {
        Some(l) => seq![("id"@, span_of(t, l))] + pairs_view(t, f.pairs@),
        None => pairs_view(t, f.pairs@),
    }
}

pub open spec fn fields_within(f: Fields, lo: int, hi: int) -> bool {
    &&& spans_within(f.pairs@, lo, hi)
    &&& f.lead matches Some(l) ==> lo <= l.0 <= l.1 <= hi
}

proof fn lemma_find_shift(x: (Seq<char>, Seq<char>), ps: Seq<(Seq<char>, Seq<char>)>, n: Seq<char>, i: int)
    requires
        0 <= i,
    ensures
        find_pair_from(seq![x] + ps, n, i + 1) == find_pair_from(ps, n, i),
    decreases ps.len() - i,
{
    if i < ps.len() {
        assert((seq![x] + ps)[i + 1] == ps[i]);
        lemma_find_shift(x, ps, n, i + 1);
    }
}

proof fn lemma_push_contains(s: Seq<char>, c: char, x: char)
    ensures
        s.push(c).contains(x) == (s.contains(x) || c == x),
{
    if c == x {
        assert(s.push(c)[s.len() as int] == x);
    }
    if s.contains(x) {
        let j = choose|j: int| 0 <= j < s.len() && s[j] == x;
        assert(s.push(c)[j] == x);
    }
    if s.push(c).contains(x) {
        let j = choose|j: int| 0 <= j < s.push(c).len() && s.push(c)[j] == x;
        if j < s.len() {
            assert(s[j] == x);
        }
    }
}

/// The positional pairs of the record rest `t[lo..hi]`.
fn positional(t: &[char], lo: usize, hi: usize) -> (r: Fields)
    requires
        lo <= hi <= t@.len(),
    ensures
        fields_view(t@, r) == positional_pairs(t@.subrange(lo as int, hi as int)),
        fields_within(r, lo as int, hi as int),
{
    let pairs = pair_spans(t, lo, hi);
    let ghost s = t@.subrange(lo as int, hi as int);
    let mut i = lo;
    while i < hi && is_ws_char(t[i])
        invariant
            lo <= i <= hi <= t@.len(),
            s == t@.subrange(lo as int, hi as int),
            nonws_from(s, 0) == nonws_from(s, i - lo),
        decreases hi - i,
    {
        assert(s[i - lo] == t@[i as int]);
        i += 1;
    }
    if i < hi {
        assert(s[i - lo] == t@[i as int]);
    }
    if i == hi {
        return Fields { lead: None, pairs };
    }
    let mut e = i;
    let mut has_eq = false;
    while e < hi && !is_ws_char(t[e])
        invariant
            lo <= i <= e <= hi <= t@.len(),
            s == t@.subrange(lo as int, hi as int),
            ws_from(s, i - lo) == ws_from(s, e - lo),
            has_eq == t@.subrange(i as int, e as int).contains('='),
        decreases hi - e,
    {
        assert(s[e - lo] == t@[e as int]);
        let ghost before = t@.subrange(i as int, e as int);
        if t[e] == '=' {
            has_eq = true;
        }
        assert(t@.subrange(i as int, e + 1) =~= before.push(t@[e as int]));
        proof {
            lemma_push_contains(before, t@[e as int], '=');
        }
        e += 1;
    }
    if e < hi {
        assert(s[e - lo] == t@[e as int]);
    }
    assert(s.subrange(i - lo, e - lo) =~= t@.subrange(i as int, e as int));
    if has_eq {
        Fields { lead: None, pairs }
    } else {
        Fields { lead: Some((i, e)), pairs }
    }
}

/// The value span of key `name` among the record's pairs.
fn field(t: &[char], f: &Fields, name: &str) -> (r: Option<Span>)
    requires
        fields_within(*f, 0, t@.len() as int),
    ensures
        opt_span_view(t@, r) == spec_find_pair(fields_view(t@, *f), name@),
        r matches Some(s) ==> s.0 <= s.1 <= t@.len(),
        forall|lo: int, hi: int| fields_within(*f, lo, hi) ==> (r matches Some(s) ==> lo <= s.0 <= s.1 <= hi),
{
    match f.lead {
        Some(l) => {
            let id = chars_of("id");
            let n = chars_of(name);
            proof {
                let x = ("id"@, span_of(t@, l));
                let ps = pairs_view(t@, f.pairs@);
                lemma_find_shift(x, ps, name@, 0);
                assert(id@.subrange(0, id@.len() as int) =~= id@);
            }
            if span_eq_ic(&id, 0, id.len(), &n) {
                return Some(l);
            }
        },
        None => {},
    }
    find_span(t, &f.pairs, name)
}

/// The value span of the record's first pair.
fn first_field(t: &[char], f: &Fields) -> (r: Option<Span>)
    requires
        fields_within(*f, 0, t@.len() as int),
    ensures
        opt_span_view(t@, r) == first_value(fields_view(t@, *f)),
        r matches Some(s) ==> s.0 <= s.1 <= t@.len(),
{
    match f.lead {
        Some(l) => Some(l),
        None => {
            if f.pairs.len() > 0 {
                Some(f.pairs[0].1)
            } else {
                None
            }
        },
    }
}

/// The flow id that a record names.
fn id_of(t: &[char], f: &Fields) -> (r: u32)
    requires
        fields_within(*f, 0, t@.len() as int),
    ensures
        r == record_id(fields_view(t@, *f)),
{
    let o = match field(t, f, "id") {
        Some(s) => Some(s),
        None => first_field(t, f),
    };
    match o {
        Some(s) => match u32_span(t, s.0, s.1) {
            Ok(n) => n,
            Err(_) => 0,
        },
        None => 0,
    }
}

fn u32_field(t: &[char], f: &Fields, name: &str) -> (r: Option<u32>)
    requires
        fields_within(*f, 0, t@.len() as int),
    ensures
        r == opt_u32_ok(spec_find_pair(fields_view(t@, *f), name@)),
{
    match field(t, f, name) {
        Some(s) => match u32_span(t, s.0, s.1) {
            Ok(n) => Some(n),
            Err(_) => None,
        },
        None => None,
    }
}

// ---------------------------------------------------------------------------
// The tracker's state
// ---------------------------------------------------------------------------

/// How closed flows are kept and deferred segments sampled.
#[derive(Debug, Clone, Copy, PartialEq, Eq, Structural)]
pub struct SessionPolicy {
    pub deep_inspect: bool,
    pub retain_closed: bool,
    pub sample_stride: usize,
    pub max_window: usize,
}

pub open spec fn default_policy() -> SessionPolicy {
    SessionPolicy { deep_inspect: false, retain_closed: true, sample_stride: 17, max_window: 4096 }
}

impl Default for SessionPolicy {
    fn default() -> (r: Self)
        ensures
            r == default_policy(),
    {
        SessionPolicy { deep_inspect: false, retain_closed: true, sample_stride: 17, max_window: 4096 }
    }
}

/// An open flow.
pub struct FlowState {
    pub key: FlowKey,
    pub chunks: usize,
    pub bytes: usize,
    pub deferred: usize,
    pub last_ack: u32,
    pub generation: u32,
    pub inspection_score: u64,
}

pub struct FlowModel {
    pub id: u32,
    pub chunks: usize,
    pub bytes: usize,
    pub deferred: usize,
    pub last_ack: u32,
    pub generation: u32,
    pub inspection_score: u64,
}

impl View for FlowState {
    type V = FlowModel;

    open spec fn view(&self) -> FlowModel {
        FlowModel {
            id: self.key.id,
            chunks: self.chunks,
            bytes: self.bytes,
            deferred: self.deferred,
            last_ack: self.last_ack,
            generation: self.generation,
            inspection_score: self.inspection_score,
        }
    }
}

pub open spec fn new_flow(id: u32, generation: u32) -> FlowModel {
    FlowModel { id, chunks: 0, bytes: 0, deferred: 0, last_ack: 0, generation, inspection_score: 0 }
}

pub open spec fn flow_summary(f: FlowModel, closed: bool) -> FlowSummary {
    FlowSummary {
        id: f.id,
        chunks: f.chunks,
        bytes: f.bytes,
        deferred: f.deferred,
        closed,
        inspection_score: f.inspection_score,
    }
}

impl FlowState {
    fn new(key: FlowKey, generation: u32) -> (r: Self)
        ensures
            r@ == new_flow(key.id, generation),
    {
        FlowState { key, chunks: 0, bytes: 0, deferred: 0, last_ack: 0, generation, inspection_score: 0 }
    }

    fn summary(&self, closed: bool) -> (r: FlowSummary)
        ensures
            r == flow_summary(self@, closed),
    {
        FlowSummary {
            id: self.key.id,
            chunks: self.chunks,
            bytes: self.bytes,
            deferred: self.deferred,
            closed,
            inspection_score: self.inspection_score,
        }
    }
}

/// A deferred data segment: its own copy of the chunk's bytes and the
/// length the record declared for it.
pub struct DeferredSegment {
    pub flow_id: u32,
    pub sequence: u32,
    pub generation: u32,
    pub data: Vec<u8>,
    pub declared_len: usize,
    pub ascii_score: u8,
    pub tag: u32,
}

pub struct SegmentModel {
    pub flow_id: u32,
    pub sequence: u32,
    pub generation: u32,
    pub data: Seq<u8>,
    pub declared_len: usize,
    pub ascii_score: u8,
    pub tag: u32,
}

impl View for DeferredSegment {
    type V = SegmentModel;

    open spec fn view(&self) -> SegmentModel {
        SegmentModel {
            flow_id: self.flow_id,
            sequence: self.sequence,
            generation: self.generation,
            data: self.data@,
            declared_len: self.declared_len,
            ascii_score: self.ascii_score,
            tag: self.tag,
        }
    }
}

pub open spec fn min_nat(a: nat, b: nat) -> nat {
    if a < b {
        a
    } else {
        b
    }
}

pub open spec fn max_nat(a: nat, b: nat) -> nat {
    if a > b {
        a
    } else {
        b
    }
}

/// The sampling loop: every `stride`-th byte from `index` below `window`
/// (and inside the segment) is folded into `acc`.
pub open spec fn sample_from(data: Seq<u8>, index: nat, window: nat, stride: nat, acc: u64) -> u64
    decreases (if index < window { window - index } else { 0 }),
{
    if index < window && index < data.len() && stride > 0 {
        sample_from(
            data,
            index + stride,
            window,
            stride,
            rotl64(acc, 5) ^ (data[index as int] as u64) ^ ((index as u64) << 8u64),
        )
    } else {
        acc
    }
}

/// The sample of a deferred segment taken in slot `slot`.
pub open spec fn spec_sample(s: SegmentModel, policy: SessionPolicy, slot: nat) -> u64 {
    let acc = (s.tag as u64) ^ ((s.sequence as u64) << 17u64) ^ ((s.generation as u64) << 33u64);
    if s.declared_len == 0 {
        acc
    } else {
        let window = max_nat(min_nat(s.declared_len as nat, policy.max_window as nat), min_nat(s.data.len(), 8));
        let stride = max_nat(policy.sample_stride as nat, 1) + slot % 13;
        sample_from(s.data, ((slot + s.ascii_score as nat) % stride) as nat, window, stride, acc)
    }
}

impl DeferredSegment {
    /// Samples the segment's bytes; bytes past the end of the segment are not
    /// read.
    fn sample(&self, policy: SessionPolicy, slot: u64) -> (r: u64)
        requires
            slot <= 0x1_0000_ffff,
            policy.sample_stride <= 192,
            policy.max_window <= 16384,
        ensures
            r == spec_sample(self@, policy, slot as nat),
    {
        let mut acc = (self.tag as u64) ^ ((self.sequence as u64) << 17) ^ ((self.generation as u64) << 33);
        if self.declared_len == 0 {
            return acc;
        }
        let len = self.data.len();
        let a = if self.declared_len < policy.max_window { self.declared_len } else { policy.max_window };
        let b = if len < 8 { len } else { 8 };
        let window: usize = if a > b { a } else { b };
        let s = if policy.sample_stride > 1 { policy.sample_stride } else { 1 };
        let stride: u64 = s as u64 + slot % 13;
        let mut index: u64 = (slot + self.ascii_score as u64) % stride;
        while index < window as u64 && index < len as u64
            invariant
                stride > 0,
                stride <= 205,
                window <= 16384,
                len == self.data@.len(),
                spec_sample(self@, policy, slot as nat) == sample_from(self.data@, index as nat, window as nat, stride as nat, acc),
            decreases (if index < window { window - index } else { 0 }),
        {
            let byte = self.data[index as usize];
            acc = rotate_left64(acc, 5) ^ (byte as u64) ^ (index << 8);
            index = index + stride;
        }
        acc
    }
}

/// Everything the tracker holds between records.
pub struct TrackerView {
    pub policy: SessionPolicy,
    pub flows: Seq<FlowModel>,
    pub closed: Seq<FlowSummary>,
    pub deferred: Seq<SegmentModel>,
    pub next_generation: u32,
    pub bytes_seen: usize,
    pub inspection_score: u64,
    pub diagnostics: Seq<ErrorView>,
}

pub open spec fn initial_tracker() -> TrackerView {
    TrackerView {
        policy: default_policy(),
        flows: Seq::empty(),
        closed: Seq::empty(),
        deferred: Seq::empty(),
        next_generation: 1,
        bytes_seen: 0,
        inspection_score: 0,
        diagnostics: Seq::empty(),
    }
}

pub open spec fn with_diag(st: TrackerView, e: ErrorView) -> TrackerView {
    TrackerView { diagnostics: st.diagnostics.push(e), ..st }
}

/// Index of the first flow with id `id` at or after `i`, or -1.
pub open spec fn flow_index_from(flows: Seq<FlowModel>, id: u32, i: int) -> int
    decreases flows.len() - i,
{
    if i < 0 || i >= flows.len() {
        -1
    } else if flows[i].id == id {
        i
    } else {
        flow_index_from(flows, id, i + 1)
    }
}

pub open spec fn flow_index(flows: Seq<FlowModel>, id: u32) -> int {
    flow_index_from(flows, id, 0)
}

proof fn lemma_flow_index(flows: Seq<FlowModel>, id: u32, i: int)
    requires
        0 <= i,
    ensures
        -1 <= flow_index_from(flows, id, i) < flows.len(),
        flow_index_from(flows, id, i) >= 0 ==> flow_index_from(flows, id, i) >= i && flows[flow_index_from(flows, id, i)].id == id,
    decreases flows.len() - i,
{
    if i < flows.len() && flows[i].id != id {
        lemma_flow_index(flows, id, i + 1);
    }
}

pub open spec fn clamp_u32(x: u32, lo: u32, hi: u32) -> u32 {
    if x < lo {
        lo
    } else if x > hi {
        hi
    } else {
        x
    }
}

// ---------------------------------------------------------------------------
// Records
// ---------------------------------------------------------------------------

/// `config`: policy switches.
pub open spec fn spec_configure(st: TrackerView, pp: Seq<(Seq<char>, Seq<char>)>) -> TrackerView {
    let p0 = st.policy;
    let p1 = match spec_find_pair(pp, "inspect"@) {
        Some(v) => SessionPolicy { deep_inspect: spec_parse_bool(v), ..p0 },
        None => p0,
    };
    let p2 = match spec_find_pair(pp, "retain"@) {
        Some(v) => SessionPolicy { retain_closed: spec_parse_bool(v), ..p1 },
        None => p1,
    };
    let p3 = match opt_u32_ok(spec_find_pair(pp, "stride"@)) {
        Some(s) => SessionPolicy { sample_stride: clamp_u32(s, 1, 128) as usize, ..p2 },
        None => p2,
    };
    let p4 = match opt_u32_ok(spec_find_pair(pp, "window"@)) {
        Some(w) => SessionPolicy { max_window: clamp_u32(w, 16, 16384) as usize, ..p3 },
        None => p3,
    };
    TrackerView { policy: p4, ..st }
}

/// `flow`: opens a flow unless one with its id is open.
pub open spec fn spec_open_flow(st: TrackerView, pp: Seq<(Seq<char>, Seq<char>)>) -> TrackerView {
    let id = record_id(pp);
    let proto = ascii_lower(or_default(spec_find_pair(pp, "proto"@), "tcp"@));
    if flow_index(st.flows, id) >= 0 {
        with_diag(st, diag(Severity::Low, "flow reopened before close"@).with_context(decimal(id as nat)))
    } else {
        let st1 = if !known_protocol(proto) {
            with_diag(st, diag(Severity::Info, "flow uses unknown protocol profile"@).with_context(proto))
        } else {
            st
        };
        let g = st.next_generation;
        let ng = g.wrapping_add(1);
        TrackerView {
            next_generation: if ng < 1 { 1 } else { ng },
            flows: st1.flows.push(new_flow(id, g)),
            ..st1
        }
    }
}

/// `data` / `defer`: adds a chunk to its flow; a deferred chunk is also
/// kept (the newest 16384) for inspection.
pub open spec fn spec_push_data(st: TrackerView, pp: Seq<(Seq<char>, Seq<char>)>, deferred: bool) -> TrackerView {
    let id = record_id(pp);
    let sequence = match opt_u32_ok(spec_find_pair(pp, "seq"@)) {
        Some(s) => s,
        None => 0,
    };
    let declared = opt_u32_ok(spec_find_pair(pp, "declared"@));
    let hex = or_default(either(spec_find_pair(pp, "data"@), spec_find_pair(pp, "hex"@)), Seq::empty());
    match spec_hex_to_bytes(hex) {
        Err(e) => with_diag(st, e),
        Ok(bytes) => {
            let i = flow_index(st.flows, id);
            if i < 0 {
                with_diag(st, diag(Severity::Medium, "data references missing flow"@).with_context(decimal(id as nat)))
            } else {
                let f = st.flows[i];
                let st1 = if sequence < f.last_ack {
                    with_diag(st, diag(Severity::Low, "out-of-order data segment"@).with_context(decimal(id as nat)))
                } else {
                    st
                };
                let f1 = FlowModel {
                    bytes: (f.bytes + bytes.len()) as usize,
                    inspection_score: f.inspection_score ^ (tag_acc(sequence, bytes) as u64),
                    chunks: (f.chunks + 1) as usize,
                    deferred: if deferred { (f.deferred + 1) as usize } else { f.deferred },
                    ..f
                };
                let segs = if deferred {
                    let seg = SegmentModel {
                        flow_id: id,
                        sequence,
                        generation: f.generation,
                        data: bytes,
                        declared_len: match declared {
                            Some(d) => d as usize,
                            None => bytes.len() as usize,
                        },
                        ascii_score: spec_ascii_score(bytes),
                        tag: tag_acc(f.generation ^ sequence, bytes),
                    };
                    let d = st1.deferred.push(seg);
                    if d.len() > 16384 {
                        d.drop_first()
                    } else {
                        d
                    }
                } else {
                    st1.deferred
                };
                TrackerView {
                    bytes_seen: (st.bytes_seen + bytes.len()) as usize,
                    flows: st1.flows.update(i, f1),
                    deferred: segs,
                    ..st1
                }
            }
        },
    }
}

/// `ack`: raises the flow's acknowledged sequence and stirs its score.
pub open spec fn spec_ack(st: TrackerView, pp: Seq<(Seq<char>, Seq<char>)>) -> TrackerView {
    let id = record_id(pp);
    let seq = match opt_u32_ok(spec_find_pair(pp, "seq"@)) {
        Some(s) => s,
        None => 0,
    };
    let i = flow_index(st.flows, id);
    if i >= 0 {
        let f = st.flows[i];
        let f1 = FlowModel {
            last_ack: if f.last_ack > seq { f.last_ack } else { seq },
            inspection_score: rotl64(f.inspection_score, seq & 31),
            ..f
        };
        TrackerView { flows: st.flows.update(i, f1), ..st }
    } else {
        with_diag(st, diag(Severity::Low, "ack references missing flow"@).with_context(decimal(id as nat)))
    }
}

/// `s` with element `i` replaced by the last one and the last removed.
pub open spec fn swap_removed<A>(s: Seq<A>, i: int) -> Seq<A> {
    s.update(i, s.last()).drop_last()
}

/// `close`: removes the flow, keeping its summary (the newest 2048) when the
/// policy retains closed flows.
pub open spec fn spec_close(st: TrackerView, pp: Seq<(Seq<char>, Seq<char>)>) -> TrackerView {
    let id = record_id(pp);
    let i = flow_index(st.flows, id);
    if i >= 0 {
        let f = st.flows[i];
        let closed = if st.policy.retain_closed {
            let c = st.closed.push(flow_summary(f, true));
            if c.len() > 2048 {
                c.drop_first()
            } else {
                c
            }
        } else {
            st.closed
        };
        TrackerView { flows: swap_removed(st.flows, i), closed, ..st }
    } else {
        with_diag(st, diag(Severity::Low, "close references missing flow"@).with_context(decimal(id as nat)))
    }
}

/// Samples the deferred segments of flow `id`, in order, in consecutive
/// slots from `slot + matched`: the combined score and how many matched.
pub open spec fn inspect_fold(
    segs: Seq<SegmentModel>,
    id: u32,
    policy: SessionPolicy,
    slot: nat,
    acc: u64,
    matched: nat,
) -> (u64, nat)
    decreases segs.len(),
{
    if segs.len() == 0 {
        (acc, matched)
    } else if segs[0].flow_id == id {
        inspect_fold(segs.drop_first(), id, policy, slot, acc ^ spec_sample(segs[0], policy, slot + matched), matched + 1)
    } else {
        inspect_fold(segs.drop_first(), id, policy, slot, acc, matched)
    }
}

/// The policy an inspection uses: the stride widened by the signal's precision.
pub open spec fn inspect_policy(p: SessionPolicy, signal: Seq<char>) -> SessionPolicy {
    match signal_precision(signal) {
        Some(prec) => {
            let s = p.sample_stride + prec + 1;
            SessionPolicy { sample_stride: (if s < 1 { 1 } else if s > 192 { 192 } else { s }) as usize, ..p }
        },
        None => p,
    }
}

/// `inspect`: under deep inspection, folds the samples of the flow's
/// deferred segments into the session score.
pub open spec fn spec_inspect(st: TrackerView, pp: Seq<(Seq<char>, Seq<char>)>) -> TrackerView {
    let id = record_id(pp);
    let slot = match opt_u32_ok(spec_find_pair(pp, "slot"@)) {
        Some(s) => s,
        None => 0,
    };
    let signal = or_default(spec_find_pair(pp, "signal"@), "engine.rpm"@);
    let policy = inspect_policy(st.policy, signal);
    if !policy.deep_inspect {
        st
    } else {
        let (acc, matched) = inspect_fold(st.deferred, id, policy, slot as nat, st.inspection_score, 0);
        let st1 = TrackerView { inspection_score: acc, ..st };
        if matched == 0 {
            with_diag(st1, diag(Severity::Info, "inspect found no deferred segments"@).with_context(decimal(id as nat)))
        } else {
            st1
        }
    }
}

/// One session tape line: what it does to the tracker.
pub open spec fn session_step(st: TrackerView, line_no: nat, line: Seq<char>) -> TrackerView {
    match spec_split_record(line) {
        None => st,
        Some((kind, rest)) => {
            let pp = positional_pairs(rest);
            let k = ascii_lower(kind);
            let at = line_no as usize;
            if k == "ifss/1"@ || k == "iftl/1"@ {
                st
            } else if k == "config"@ {
                spec_configure(st, pp)
            } else if k == "flow"@ {
                spec_open_flow(st, pp)
            } else if k == "data"@ {
                spec_push_data(st, pp, false)
            } else if k == "defer"@ {
                spec_push_data(st, pp, true)
            } else if k == "ack"@ {
                spec_ack(st, pp)
            } else if k == "close"@ {
                spec_close(st, pp)
            } else if k == "inspect"@ {
                spec_inspect(st, pp)
            } else if k == "sensor"@ {
                match spec_find_pair(pp, "id"@) {
                    Some(id) => if signal_precision(id) is None {
                        with_diag(st, diag(Severity::Low, "session references unknown sensor"@).at(at).with_context(id))
                    } else {
                        st
                    },
                    None => st,
                }
            } else {
                with_diag(st, diag(Severity::Info, "ignored session record"@).at(at).with_context(kind))
            }
        },
    }
}

/// Replays the lines of `t` from `pos` on; more than 4096 open flows or
/// 16384 deferred segments are refused.
pub open spec fn session_from(t: Seq<char>, pos: int, line_no: nat, st: TrackerView) -> core::result::Result<
    TrackerView,
    ErrorView,
>
    decreases t.len() - pos,
{
    if pos < 0 || pos >= t.len() {
        Ok(st)
    } else {
        proof {
            crate::text::lemma_line_end(t, pos);
        }
        let next = session_step(st, line_no, line_at(t, pos));
        if next.flows.len() > 4096 || next.deferred.len() > 16384 {
            Err(diag(Severity::Medium, "session tape exceeds decoder limits"@).at(line_no as usize))
        } else {
            session_from(t, next_line(t, pos), line_no + 1, next)
        }
    }
}

// ---------------------------------------------------------------------------
// Reports
// ---------------------------------------------------------------------------

/// Inserts `x` after the last element whose id is at most `x.id`.
pub open spec fn insert_by_id(s: Seq<FlowSummary>, x: FlowSummary) -> Seq<FlowSummary>
    decreases s.len(),
{
    if s.len() == 0 {
        seq![x]
    } else if s.last().id <= x.id {
        s.push(x)
    } else {
        insert_by_id(s.drop_last(), x).push(s.last())
    }
}

/// The summaries ordered by id, equal ids kept in their input order.
pub open spec fn sort_by_id(s: Seq<FlowSummary>) -> Seq<FlowSummary>
    decreases s.len(),
{
    if s.len() == 0 {
        Seq::empty()
    } else {
        insert_by_id(sort_by_id(s.drop_last()), s.last())
    }
}

#[derive(Debug, Clone)]
pub struct SessionReport {
    pub flows: Vec<FlowSummary>,
    pub diagnostics: Diagnostics,
    pub bytes_seen: usize,
    pub deferred_segments: usize,
    pub inspection_score: u64,
}

pub struct SessionReportView {
    pub flows: Seq<FlowSummary>,
    pub diagnostics: Seq<ErrorView>,
    pub bytes_seen: usize,
    pub deferred_segments: usize,
    pub inspection_score: u64,
}

impl View for SessionReport {
    type V = SessionReportView;

    open spec fn view(&self) -> SessionReportView {
        SessionReportView {
            flows: self.flows@,
            diagnostics: self.diagnostics@,
            bytes_seen: self.bytes_seen,
            deferred_segments: self.deferred_segments,
            inspection_score: self.inspection_score,
        }
    }
}

impl Default for SessionReport {
    fn default() -> (r: Self)
        ensures
            r@.flows.len() == 0,
            r@.diagnostics.len() == 0,
            r@.bytes_seen == 0,
            r@.deferred_segments == 0,
            r@.inspection_score == 0,
    {
        SessionReport {
            flows: Vec::new(),
            diagnostics: Diagnostics::new(),
            bytes_seen: 0,
            deferred_segments: 0,
            inspection_score: 0,
        }
    }
}

/// The summaries of the open flows.
pub open spec fn open_summaries(flows: Seq<FlowModel>) -> Seq<FlowSummary> {
    flows.map_values(|f: FlowModel| flow_summary(f, false))
}

/// The report at the end of a tape: closed then open flows, ordered by id.
pub open spec fn spec_finish(st: TrackerView) -> SessionReportView {
    SessionReportView {
        flows: sort_by_id(st.closed + open_summaries(st.flows)),
        diagnostics: st.diagnostics,
        bytes_seen: st.bytes_seen,
        deferred_segments: st.deferred.len() as usize,
        inspection_score: st.inspection_score,
    }
}

/// What `replay_session_tape` makes of a buffer.
pub open spec fn spec_replay(data: Seq<u8>) -> core::result::Result<SessionReportView, ErrorView> {
    spec_replay_text(lossy_text(data))
}

/// What `replay_session_text` makes of a decoded tape.
pub open spec fn spec_replay_text(t: Seq<char>) -> core::result::Result<SessionReportView, ErrorView> {
    match session_from(t, 0, 0, initial_tracker()) {
        Ok(st) => Ok(spec_finish(st)),
        Err(e) => Err(e),
    }
}

pub open spec fn session_result_view(r: core::result::Result<SessionReport, IronfleetError>) -> core::result::Result<
    SessionReportView,
    ErrorView,
> {
    match r {
        Ok(s) => Ok(s@),
        Err(e) => Err(e@),
    }
}


// ---------------------------------------------------------------------------
// The tracker
// ---------------------------------------------------------------------------

/// The replay state.
pub struct SessionTracker {
    pub policy: SessionPolicy,
    pub flows: Vec<FlowState>,
    pub closed: Vec<FlowSummary>,
    pub deferred: Vec<DeferredSegment>,
    pub next_generation: u32,
    pub bytes_seen: usize,
    pub inspection_score: u64,
    pub diagnostics: Diagnostics,
}

pub open spec fn flows_view(v: Seq<FlowState>) -> Seq<FlowModel> {
    v.map_values(|f: FlowState| f@)
}

pub open spec fn segments_view(v: Seq<DeferredSegment>) -> Seq<SegmentModel> {
    v.map_values(|d: DeferredSegment| d@)
}

impl View for SessionTracker {
    type V = TrackerView;

    open spec fn view(&self) -> TrackerView {
        TrackerView {
            policy: self.policy,
            flows: flows_view(self.flows@),
            closed: self.closed@,
            deferred: segments_view(self.deferred@),
            next_generation: self.next_generation,
            bytes_seen: self.bytes_seen,
            inspection_score: self.inspection_score,
            diagnostics: self.diagnostics@,
        }
    }
}

/// Bounds that keep every counter of the tracker far from overflow after
/// `lines` lines and `chars` characters of input.
pub open spec fn bounded(st: TrackerView, lines: nat, chars: nat) -> bool {
    &&& st.bytes_seen <= chars
    &&& st.deferred.len() <= 16384
    &&& st.closed.len() <= 2048
    &&& 1 <= st.policy.sample_stride <= 128
    &&& st.policy.max_window <= 16384
    &&& forall|i: int|
        0 <= i < st.flows.len() ==> (#[trigger] st.flows[i]).bytes <= st.bytes_seen && st.flows[i].chunks <= lines
            && st.flows[i].deferred <= lines
}

/// The first open flow with the given id.
fn find_flow(flows: &Vec<FlowState>, id: u32) -> (r: Option<usize>)
    ensures
        match r {
            Some(k) => flow_index(flows_view(flows@), id) == k && k < flows@.len(),
            None => flow_index(flows_view(flows@), id) == -1,
        },
{
    let ghost fv = flows_view(flows@);
    let mut k: usize = 0;
    while k < flows.len()
        invariant
            k <= flows@.len(),
            fv == flows_view(flows@),
            flow_index_from(fv, id, 0) == flow_index_from(fv, id, k as int),
        decreases flows@.len() - k,
    {
        if flows[k].key.id == id {
            return Some(k);
        }
        k += 1;
    }
    None
}

proof fn lemma_flows_update(v: Seq<FlowState>, k: int, f: FlowState)
    requires
        0 <= k < v.len(),
    ensures
        flows_view(v.remove(k).insert(k, f)) == flows_view(v).update(k, f@),
{
    assert(flows_view(v.remove(k).insert(k, f)) =~= flows_view(v).update(k, f@));
}

proof fn lemma_bounded_mono(st: TrackerView, l: nat, c: nat, l2: nat, c2: nat)
    requires
        bounded(st, l, c),
        l <= l2,
        c <= c2,
    ensures
        bounded(st, l2, c2),
{
}

proof fn lemma_diag_bounded(st: TrackerView, e: ErrorView, l: nat, c: nat)
    requires
        bounded(st, l, c),
    ensures
        bounded(with_diag(st, e), l, c),
        with_diag(st, e).flows == st.flows,
{
    assert(with_diag(st, e).flows == st.flows);
}

proof fn lemma_step_bounded(st: TrackerView, pp: Seq<(Seq<char>, Seq<char>)>, l: nat, c: nat)
    requires
        bounded(st, l, c),
    ensures
        bounded(spec_configure(st, pp), l, c),
        spec_configure(st, pp).flows == st.flows,
        bounded(spec_open_flow(st, pp), l, c),
        spec_open_flow(st, pp).flows.len() <= st.flows.len() + 1,
        bounded(spec_ack(st, pp), l, c),
        spec_ack(st, pp).flows.len() == st.flows.len(),
        bounded(spec_close(st, pp), l, c),
        spec_close(st, pp).flows.len() <= st.flows.len(),
        bounded(spec_inspect(st, pp), l, c),
        spec_inspect(st, pp).flows == st.flows,
{
    let id = record_id(pp);
    lemma_flow_index(st.flows, id, 0);
    let proto = ascii_lower(or_default(spec_find_pair(pp, "proto"@), "tcp"@));
    if flow_index(st.flows, id) < 0 {
        let st1 = if !known_protocol(proto) {
            with_diag(st, diag(Severity::Info, "flow uses unknown protocol profile"@).with_context(proto))
        } else {
            st
        };
        let o = spec_open_flow(st, pp);
        assert forall|i: int| 0 <= i < o.flows.len() implies (#[trigger] o.flows[i]).bytes <= o.bytes_seen
            && o.flows[i].chunks <= l && o.flows[i].deferred <= l by {
            if i < st.flows.len() {
                assert(o.flows[i] == st.flows[i]);
            }
        }
    }
    let a = spec_ack(st, pp);
    let idx = flow_index(st.flows, id);
    if idx >= 0 {
        assert forall|i: int| 0 <= i < a.flows.len() implies (#[trigger] a.flows[i]).bytes <= a.bytes_seen
            && a.flows[i].chunks <= l && a.flows[i].deferred <= l by {
            assert(st.flows[i].bytes <= st.bytes_seen);
        }
        let cl = spec_close(st, pp);
        assert forall|i: int| 0 <= i < cl.flows.len() implies (#[trigger] cl.flows[i]).bytes <= cl.bytes_seen
            && cl.flows[i].chunks <= l && cl.flows[i].deferred <= l by {
            if i == idx {
                assert(cl.flows[i] == st.flows[st.flows.len() - 1]);
            } else {
                assert(cl.flows[i] == st.flows[i]);
            }
        }
    }
}

impl SessionTracker {
    fn new() -> (r: Self)
        ensures
            r@ == initial_tracker(),
    {
        let r = SessionTracker {
            policy: SessionPolicy::default(),
            flows: Vec::new(),
            closed: Vec::new(),
            deferred: Vec::new(),
            next_generation: 1,
            bytes_seen: 0,
            inspection_score: 0,
            diagnostics: Diagnostics::new(),
        };
        assert(r@.flows =~= Seq::<FlowModel>::empty());
        assert(r@.deferred =~= Seq::<SegmentModel>::empty());
        r
    }

    fn configure(&mut self, t: &[char], f: &Fields)
        requires
            fields_within(*f, 0, t@.len() as int),
        ensures
            final(self)@ == spec_configure(old(self)@, fields_view(t@, *f)),
    {
        match field(t, f, "inspect") {
            Some(v) => {
                self.policy.deep_inspect = bool_span(t, v.0, v.1);
            },
            None => {},
        }
        match field(t, f, "retain") {
            Some(v) => {
                self.policy.retain_closed = bool_span(t, v.0, v.1);
            },
            None => {},
        }
        match u32_field(t, f, "stride") {
            Some(s) => {
                let c = if s < 1 { 1 } else if s > 128 { 128 } else { s };
                self.policy.sample_stride = c as usize;
            },
            None => {},
        }
        match u32_field(t, f, "window") {
            Some(w) => {
                let c = if w < 16 { 16 } else if w > 16384 { 16384 } else { w };
                self.policy.max_window = c as usize;
            },
            None => {},
        }
    }

    fn open_flow(&mut self, t: &[char], f: &Fields)
        requires
            fields_within(*f, 0, t@.len() as int),
        ensures
            final(self)@ == spec_open_flow(old(self)@, fields_view(t@, *f)),
    {
        let id = id_of(t, f);
        let proto = match field(t, f, "proto") {
            Some(p) => TransportProto::from_span(t, p.0, p.1),
            None => TransportProto::parse("tcp"),
        };
        let source = match field(t, f, "src") {
            Some(s) => Endpoint::from_span(t, s.0, s.1),
            None => Endpoint::parse("0.0.0.0:0"),
        };
        let destination = match field(t, f, "dst") {
            Some(s) => Endpoint::from_span(t, s.0, s.1),
            None => Endpoint::parse("0.0.0.0:0"),
        };
        if find_flow(&self.flows, id).is_some() {
            self.diagnostics.push(IronfleetError::low("flow reopened before close").with_context(decimal_string(id as u64)));
            return;
        }
        let pc = chars_of(proto.as_str());
        assert(pc@.subrange(0, pc@.len() as int) =~= pc@);
        if profile_for_protocol(&pc, 0, pc.len()).is_none() {
            let mut ctx = String::new();
            append_str(&mut ctx, proto.as_str());
            assert(ctx@ =~= proto.name());
            self.diagnostics.push(IronfleetError::info("flow uses unknown protocol profile").with_context(ctx));
        }
        let generation = self.next_generation;
        let ng = self.next_generation.wrapping_add(1);
        self.next_generation = if ng < 1 { 1 } else { ng };
        let ghost before = self.flows@;
        self.flows.push(FlowState::new(FlowKey { id, source, destination, protocol: proto }, generation));
        assert(flows_view(self.flows@) =~= flows_view(before).push(new_flow(id, generation)));
    }

    fn push_data(&mut self, t: &[char], f: &Fields, deferred: bool, Ghost(lo): Ghost<int>, Ghost(hi): Ghost<int>, Ghost(lines): Ghost<nat>)
        requires
            0 <= lo <= hi <= t@.len(),
            lines < t@.len(),
            fields_within(*f, lo, hi),
            bounded(old(self)@, lines, lo as nat),
        ensures
            final(self)@ == spec_push_data(old(self)@, fields_view(t@, *f), deferred),
            bounded(final(self)@, lines + 1, hi as nat),
            final(self)@.flows.len() == old(self)@.flows.len(),
    {
        let ghost pp = fields_view(t@, *f);
        let total = t.len();
        let id = id_of(t, f);
        let sequence = match u32_field(t, f, "seq") {
            Some(s) => s,
            None => 0,
        };
        let declared = u32_field(t, f, "declared");
        let hex = match field(t, f, "data") {
            Some(s) => Some(s),
            None => field(t, f, "hex"),
        };
        let (hlo, hhi) = match hex {
            Some(s) => s,
            None => (0, 0),
        };
        assert(t@.subrange(hlo as int, hhi as int) == or_default(either(spec_find_pair(pp, "data"@), spec_find_pair(pp, "hex"@)), Seq::empty()));
        let bytes = match hex_span(t, hlo, hhi) {
            Ok(b) => b,
            Err(e) => {
                self.diagnostics.push(e);
                return;
            },
        };
        proof {
            lemma_hex_len(t@.subrange(hlo as int, hhi as int));
        }
        assert(bytes@.len() <= hi - lo);
        let k = match find_flow(&self.flows, id) {
            Some(k) => k,
            None => {
                self.diagnostics.push(IronfleetError::medium("data references missing flow").with_context(decimal_string(id as u64)));
                return;
            },
        };
        let ghost old_flows = self.flows@;
        let ghost fm = self@.flows[k as int];
        let mut fl = self.flows.remove(k);
        assert(fl@ == fm);
        if sequence < fl.last_ack {
            self.diagnostics.push(IronfleetError::low("out-of-order data segment").with_context(decimal_string(id as u64)));
        }
        let len = bytes.len();
        self.bytes_seen = self.bytes_seen + len;
        fl.bytes = fl.bytes + len;
        fl.inspection_score = fl.inspection_score ^ (rolling_tag(sequence, &bytes) as u64);
        fl.chunks = fl.chunks + 1;
        if deferred {
            let declared_len = match declared {
                Some(d) => d as usize,
                None => len,
            };
            let score = ascii_score(&bytes);
            let tag = rolling_tag(fl.generation ^ sequence, &bytes);
            let seg = DeferredSegment {
                flow_id: id,
                sequence,
                generation: fl.generation,
                data: bytes,
                declared_len,
                ascii_score: score,
                tag,
            };
            fl.deferred = fl.deferred + 1;
            let ghost before = self.deferred@;
            self.deferred.push(seg);
            assert(segments_view(self.deferred@) =~= segments_view(before).push(seg@));
            if self.deferred.len() > 16384 {
                let ghost before2 = self.deferred@;
                self.deferred.remove(0);
                assert(segments_view(self.deferred@) =~= segments_view(before2).drop_first());
            }
        }
        self.flows.insert(k, fl);
        proof {
            lemma_flows_update(old_flows, k as int, fl);
            let st = self@;
            assert forall|i: int| 0 <= i < st.flows.len() implies (#[trigger] st.flows[i]).bytes <= st.bytes_seen
                && st.flows[i].chunks <= lines + 1 && st.flows[i].deferred <= lines + 1 by {
                if i != k {
                    assert(st.flows[i] == flows_view(old_flows)[i]);
                }
            }
        }
    }

    fn ack(&mut self, t: &[char], f: &Fields)
        requires
            fields_within(*f, 0, t@.len() as int),
        ensures
            final(self)@ == spec_ack(old(self)@, fields_view(t@, *f)),
    {
        let id = id_of(t, f);
        let seq = match u32_field(t, f, "seq") {
            Some(s) => s,
            None => 0,
        };
        match find_flow(&self.flows, id) {
            Some(k) => {
                let ghost old_flows = self.flows@;
                let mut fl = self.flows.remove(k);
                fl.last_ack = if fl.last_ack > seq { fl.last_ack } else { seq };
                assert(seq & 31 < 32) by (bit_vector);
                fl.inspection_score = rotate_left64(fl.inspection_score, seq & 31);
                self.flows.insert(k, fl);
                proof {
                    lemma_flows_update(old_flows, k as int, fl);
                }
            },
            None => {
                self.diagnostics.push(IronfleetError::low("ack references missing flow").with_context(decimal_string(id as u64)));
            },
        }
    }

    fn close(&mut self, t: &[char], f: &Fields)
        requires
            fields_within(*f, 0, t@.len() as int),
        ensures
            final(self)@ == spec_close(old(self)@, fields_view(t@, *f)),
    {
        let id = id_of(t, f);
        match find_flow(&self.flows, id) {
            Some(k) => {
                let ghost old_flows = self.flows@;
                let fl = self.flows.swap_remove(k);
                assert(flows_view(self.flows@) =~= swap_removed(flows_view(old_flows), k as int));
                let summary = fl.summary(true);
                if self.policy.retain_closed {
                    self.closed.push(summary);
                    if self.closed.len() > 2048 {
                        self.closed.remove(0);
                    }
                }
            },
            None => {
                self.diagnostics.push(IronfleetError::low("close references missing flow").with_context(decimal_string(id as u64)));
            },
        }
    }

    fn inspect(&mut self, t: &[char], f: &Fields)
        requires
            fields_within(*f, 0, t@.len() as int),
            old(self)@.deferred.len() <= 16384,
            old(self)@.policy.sample_stride <= 128,
            old(self)@.policy.max_window <= 16384,
        ensures
            final(self)@ == spec_inspect(old(self)@, fields_view(t@, *f)),
    {
        let ghost pp = fields_view(t@, *f);
        let id = id_of(t, f);
        let slot = match u32_field(t, f, "slot") {
            Some(s) => s,
            None => 0,
        };
        let known = match field(t, f, "signal") {
            Some(s) => signal_by_name(t, s.0, s.1),
            None => {
                let e = chars_of("engine.rpm");
                assert(e@.subrange(0, e@.len() as int) =~= e@);
                signal_by_name(&e, 0, e.len())
            },
        };
        let mut policy = self.policy;
        match known {
            Some(spec) => {
                let s = policy.sample_stride + spec.precision as usize + 1;
                policy.sample_stride = if s < 1 { 1 } else if s > 192 { 192 } else { s };
            },
            None => {},
        }
        assert(policy == inspect_policy(self.policy, or_default(spec_find_pair(pp, "signal"@), "engine.rpm"@)));
        if !policy.deep_inspect {
            return;
        }
        let ghost segs = self@.deferred;
        let ghost start = self.inspection_score;
        let ghost base = self@;
        let mut matched: u64 = 0;
        let mut i: usize = 0;
        assert(segs.skip(0) =~= segs);
        while i < self.deferred.len()
            invariant
                self@ == (TrackerView { inspection_score: self.inspection_score, ..base }),
                base == old(self)@,
                start == base.inspection_score,
                policy == inspect_policy(base.policy, or_default(spec_find_pair(pp, "signal"@), "engine.rpm"@)),
                policy.deep_inspect,
                i <= self.deferred@.len(),
                segs == segments_view(self.deferred@),
                segs.len() <= 16384,
                matched <= i,
                policy.sample_stride <= 192,
                policy.max_window <= 16384,
                slot <= u32::MAX,
                inspect_fold(segs, id, policy, slot as nat, start, 0) == inspect_fold(
                    segs.skip(i as int),
                    id,
                    policy,
                    slot as nat,
                    self.inspection_score,
                    matched as nat,
                ),
            decreases self.deferred@.len() - i,
        {
            assert(segs.skip(i as int).drop_first() =~= segs.skip(i + 1));
            assert(segs.skip(i as int)[0] == segs[i as int]);
            if self.deferred[i].flow_id == id {
                let score = self.deferred[i].sample(policy, slot as u64 + matched);
                self.inspection_score = self.inspection_score ^ score;
                matched += 1;
            }
            i += 1;
        }
        assert(segs.skip(i as int) =~= Seq::<SegmentModel>::empty());
        if matched == 0 {
            self.diagnostics.push(IronfleetError::info("inspect found no deferred segments").with_context(decimal_string(id as u64)));
        }
    }

    /// One tape line `t[lo..hi]`.
    fn step(&mut self, t: &[char], lo: usize, hi: usize, line_no: usize)
        requires
            lo <= hi <= t@.len(),
            line_no <= lo < t@.len(),
            bounded(old(self)@, line_no as nat, lo as nat),
            old(self)@.flows.len() <= 4096,
        ensures
            final(self)@ == session_step(old(self)@, line_no as nat, t@.subrange(lo as int, hi as int)),
            bounded(final(self)@, (line_no + 1) as nat, hi as nat),
            final(self)@.flows.len() <= old(self)@.flows.len() + 1,
    {
        let (kind, rest) = match record_spans(t, lo, hi) {
            None => {
                return;
            },
            Some(p) => p,
        };
        let f = positional(t, rest.0, rest.1);
        assert(fields_within(f, 0, t@.len() as int));
        proof {
            let pp = fields_view(t@, f);
            lemma_step_bounded(self@, pp, line_no as nat, lo as nat);
            lemma_bounded_mono(self@, line_no as nat, lo as nat, (line_no + 1) as nat, hi as nat);
            lemma_bounded_mono(spec_configure(self@, pp), line_no as nat, lo as nat, (line_no + 1) as nat, hi as nat);
            lemma_bounded_mono(spec_open_flow(self@, pp), line_no as nat, lo as nat, (line_no + 1) as nat, hi as nat);
            lemma_bounded_mono(spec_ack(self@, pp), line_no as nat, lo as nat, (line_no + 1) as nat, hi as nat);
            lemma_bounded_mono(spec_close(self@, pp), line_no as nat, lo as nat, (line_no + 1) as nat, hi as nat);
            lemma_bounded_mono(spec_inspect(self@, pp), line_no as nat, lo as nat, (line_no + 1) as nat, hi as nat);
            let e1 = diag(Severity::Info, "ignored session record"@).at(line_no).with_context(t@.subrange(kind.0 as int, kind.1 as int));
            lemma_diag_bounded(self@, e1, (line_no + 1) as nat, hi as nat);
            match spec_find_pair(pp, "id"@) {
                Some(id) => {
                    let e2 = diag(Severity::Low, "session references unknown sensor"@).at(line_no).with_context(id);
                    lemma_diag_bounded(self@, e2, (line_no + 1) as nat, hi as nat);
                },
                None => {},
            }
        }
        if span_lower_is(t, kind.0, kind.1, "ifss/1") || span_lower_is(t, kind.0, kind.1, "iftl/1") {
        } else if span_lower_is(t, kind.0, kind.1, "config") {
            self.configure(t, &f);
        } else if span_lower_is(t, kind.0, kind.1, "flow") {
            self.open_flow(t, &f);
        } else if span_lower_is(t, kind.0, kind.1, "data") {
            self.push_data(t, &f, false, Ghost(lo as int), Ghost(hi as int), Ghost(line_no as nat));
        } else if span_lower_is(t, kind.0, kind.1, "defer") {
            self.push_data(t, &f, true, Ghost(lo as int), Ghost(hi as int), Ghost(line_no as nat));
        } else if span_lower_is(t, kind.0, kind.1, "ack") {
            self.ack(t, &f);
        } else if span_lower_is(t, kind.0, kind.1, "close") {
            self.close(t, &f);
        } else if span_lower_is(t, kind.0, kind.1, "inspect") {
            self.inspect(t, &f);
        } else if span_lower_is(t, kind.0, kind.1, "sensor") {
            match field(t, &f, "id") {
                Some(id) => {
                    if signal_by_name(t, id.0, id.1).is_none() {
                        self.diagnostics.push(
                            IronfleetError::low("session references unknown sensor").at(line_no).with_context(
                                string_of(t, id.0, id.1),
                            ),
                        );
                    }
                },
                None => {},
            }
        } else {
            self.diagnostics.push(
                IronfleetError::info("ignored session record").at(line_no).with_context(string_of(t, kind.0, kind.1)),
            );
        }
    }

    fn finish(self) -> (r: SessionReport)
        ensures
            r@ == spec_finish(self@),
    {
        let SessionTracker { policy, flows, closed, deferred, next_generation, bytes_seen, inspection_score, diagnostics } = self;
        let ghost all = self@.closed + open_summaries(self@.flows);
        let mut summaries: Vec<FlowSummary> = closed;
        let mut i: usize = 0;
        while i < flows.len()
            invariant
                i <= flows@.len(),
                summaries@ == self@.closed + open_summaries(flows_view(flows@)).take(i as int),
                flows@ == self.flows@,
            decreases flows@.len() - i,
        {
            let s = flows[i].summary(false);
            let ghost before = summaries@;
            summaries.push(s);
            assert(open_summaries(flows_view(flows@)).take(i + 1) =~= open_summaries(flows_view(flows@)).take(i as int).push(s));
            assert(summaries@ =~= self@.closed + open_summaries(flows_view(flows@)).take(i + 1));
            i += 1;
        }
        assert(open_summaries(flows_view(flows@)).take(i as int) =~= open_summaries(flows_view(flows@)));
        let sorted = sort_summaries(&summaries);
        SessionReport {
            flows: sorted,
            diagnostics,
            bytes_seen,
            deferred_segments: deferred.len(),
            inspection_score,
        }
    }
}

/// `v` with `x` inserted after the last summary whose id is at most `x.id`.
fn insert_sorted(v: Vec<FlowSummary>, x: FlowSummary) -> (r: Vec<FlowSummary>)
    ensures
        r@ == insert_by_id(v@, x),
    decreases v@.len(),
{
    let mut v = v;
    if v.len() == 0 {
        v.push(x);
        assert(v@ =~= seq![x]);
        v
    } else if v[v.len() - 1].id <= x.id {
        v.push(x);
        v
    } else {
        let ghost before = v@;
        let last = v.pop().unwrap();
        assert(v@ == before.drop_last());
        let mut r = insert_sorted(v, x);
        r.push(last);
        r
    }
}

/// The summaries ordered by id, equal ids in input order.
fn sort_summaries(s: &Vec<FlowSummary>) -> (r: Vec<FlowSummary>)
    ensures
        r@ == sort_by_id(s@),
{
    let mut out: Vec<FlowSummary> = Vec::new();
    let mut i: usize = 0;
    assert(s@.take(0) =~= Seq::<FlowSummary>::empty());
    while i < s.len()
        invariant
            i <= s@.len(),
            out@ == sort_by_id(s@.take(i as int)),
        decreases s@.len() - i,
    {
        assert(s@.take(i + 1).drop_last() =~= s@.take(i as int));
        out = insert_sorted(out, s[i]);
        i += 1;
    }
    assert(s@.take(i as int) =~= s@);
    out
}

pub fn replay_session_tape(data: &[u8]) -> (r: Result<SessionReport>)
    ensures
        session_result_view(r) == spec_replay(data@),
{
    let t = lossy_chars(data);
    replay_session_text(&t)
}

/// Replays a tape already decoded to characters.
pub fn replay_session_text(t: &[char]) -> (r: Result<SessionReport>)
    ensures
        session_result_view(r) == spec_replay_text(t@),
{
    let total = t.len();
    let mut tracker = SessionTracker::new();
    let mut pos: usize = 0;
    let mut line_no: usize = 0;
    while pos < t.len()
        invariant
            total == t@.len(),
            pos <= t@.len(),
            line_no <= pos,
            tracker@.flows.len() <= 4096,
            bounded(tracker@, line_no as nat, pos as nat),
            session_from(t@, 0, 0, initial_tracker()) == session_from(t@, pos as int, line_no as nat, tracker@),
        decreases t@.len() - pos,
    {
        let (lo, hi, next) = line_bounds(t, pos);
        tracker.step(t, lo, hi, line_no);
        if tracker.flows.len() > 4096 || tracker.deferred.len() > 16384 {
            return Err(IronfleetError::medium("session tape exceeds decoder limits").at(line_no));
        }
        pos = next;
        line_no += 1;
    }
    Ok(tracker.finish())
}

} // verus!
