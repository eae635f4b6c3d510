//! Properties that hold across the library's operations, each proved over the
//! spec functions that the operations' contracts use.
use vstd::prelude::*;
use vstd::multiset::Multiset;
use crate::alert::{ProgramView, empty_program, program_from, program_step, spec_alert_program};
use crate::archive::{ArchiveState, archive_from, archive_step, initial_archive, spec_decode_archive};
use crate::checksum::{rotl32, rotl64};
use crate::error::{ErrorView, Severity, highest_of, severity_named};
use crate::checksum::spec_crc16_x25;
use crate::frame::{FrameKind, make_frame, FrameView, binary_frame_at, binary_frames_from, spec_frame_stream, has_prefix, archive_magic, session_magic};
use crate::model::{
    FlowSummary, ReportView, TransportProto, empty_report, merged, endpoint_host, endpoint_port, last_index_of,
};
use crate::reader::{ReaderView, take_end, le16, le32};
use crate::route::{BookView, empty_book, manifest_from, manifest_step, spec_route_manifest};
use crate::session::{
    FlowModel, TrackerView, initial_tracker, session_step, session_from, spec_replay, open_summaries, insert_by_id,
    sort_by_id, flow_index, flow_index_from, spec_open_flow, spec_push_data, spec_ack, spec_close, spec_inspect,
    swap_removed, new_flow, positional_pairs, record_id, inspect_fold, inspect_policy, SegmentModel, SessionPolicy, spec_sample, sample_from,
};
use crate::error::diag;
use crate::archive::frames_report;
use crate::catalog::profile_bias;
use crate::model::ComparisonOp;
use crate::route::spec_route_leg;
use crate::alert::spec_alert_rule;
use crate::strings::starts_with;
use crate::text::{eq_ic, find_pair_from, spec_parse_u32};
use crate::fields::either;
use crate::frame::line_kind;
use crate::model::comparison_named;
use crate::fields::{opt_u32_ok, or_default};
use crate::strings::{decimal, digit_char};
use crate::text::{
    Trim, trims, drop_lead, drop_trail, trim_with, trim, lower, ascii_lower, parse_unsigned, digits_value,
    digit_value, all_digits, spec_split_record, lossy_text, lemma_line_end, line_at, next_line, hex_state,
    hex_nibble, is_hex_sep, spec_hex_to_bytes, spec_find_pair,
};

verus! {

// ---------------------------------------------------------------------------
// Text
// ---------------------------------------------------------------------------

proof fn lemma_drop_lead_front(s: Seq<char>, k: Trim)
    ensures
        drop_lead(s, k).len() == 0 || !trims(k, drop_lead(s, k)[0]),
    decreases s.len(),
{
    if s.len() > 0 && trims(k, s[0]) {
        lemma_drop_lead_front(s.drop_first(), k);
    }
}

proof fn lemma_drop_trail_prefix(s: Seq<char>, k: Trim)
    ensures
        drop_trail(s, k).len() <= s.len(),
        drop_trail(s, k) == s.take(drop_trail(s, k).len() as int),
        drop_trail(s, k).len() == 0 || !trims(k, drop_trail(s, k).last()),
    decreases s.len(),
{
    if s.len() > 0 && trims(k, s.last()) {
        lemma_drop_trail_prefix(s.drop_last(), k);
        let t = drop_trail(s.drop_last(), k);
        assert(s.drop_last().take(t.len() as int) =~= s.take(t.len() as int));
    } else {
        assert(s.take(s.len() as int) =~= s);
    }
}

/// Trimming is idempotent: a trimmed text has nothing left to trim, for
/// every class of trimmed characters.
pub proof fn trim_idempotent(s: Seq<char>, k: Trim)
    ensures
        trim_with(trim_with(s, k), k) == trim_with(s, k),
{
    let d = drop_lead(s, k);
    let t = drop_trail(d, k);
    lemma_drop_lead_front(s, k);
    lemma_drop_trail_prefix(d, k);
    if t.len() > 0 {
        assert(t[0] == d[0]);
    }
    assert(drop_lead(t, k) == t);
    assert(drop_trail(t, k) == t);
}

/// ASCII lower-casing is idempotent.
pub proof fn lower_idempotent(s: Seq<char>)
    ensures
        ascii_lower(ascii_lower(s)) == ascii_lower(s),
{
    assert forall|i: int| 0 <= i < s.len() implies #[trigger] lower(lower(s[i])) == lower(s[i]) by {
        let c = s[i];
        if 'A' <= c && c <= 'Z' {
            assert((c as u32) + 32 > 'Z' as u32);
        }
    }
    assert(ascii_lower(ascii_lower(s)) =~= ascii_lower(s));
}

proof fn lemma_plain_word(s: Seq<char>)
    requires
        s.len() > 0,
        forall|i: int| 0 <= i < s.len() ==> 'a' <= #[trigger] s[i] && s[i] <= 'z',
    ensures
        ascii_lower(trim(s)) == s,
{
    assert(drop_lead(s, Trim::Space) == s);
    assert(drop_trail(s, Trim::Space) == s);
    assert(ascii_lower(s) =~= s);
}

// ---------------------------------------------------------------------------
// Severities and protocols
// ---------------------------------------------------------------------------

/// Every severity reads back from its own name: `Severity::parse(s.as_str())`
/// is `Some(s)`.
pub proof fn severity_round_trip(s: Severity)
    ensures
        severity_named(ascii_lower(trim(s.name()))) == Some(s),
{
    reveal_strlit("info");
    reveal_strlit("note");
    reveal_strlit("low");
    reveal_strlit("minor");
    reveal_strlit("medium");
    reveal_strlit("moderate");
    reveal_strlit("high");
    reveal_strlit("major");
    reveal_strlit("critical");
    reveal_strlit("crit");
    reveal_strlit("emergency");
    lemma_plain_word(s.name());
    assert("low"@[0] != "info"@[0] && "low"@[0] != "note"@[0]);
    assert("medium"@[0] != "info"@[0] && "medium"@[0] != "note"@[0] && "medium"@[0] != "low"@[0]);
    assert("medium"@.len() != "minor"@.len());
    assert("high"@[0] != "info"@[0] && "high"@[0] != "note"@[0] && "high"@[0] != "low"@[0]);
    assert("high"@[0] != "minor"@[0] && "high"@[0] != "medium"@[0] && "high"@[0] != "moderate"@[0]);
    assert("critical"@[0] != "info"@[0] && "critical"@[0] != "note"@[0] && "critical"@[0] != "low"@[0]);
    assert("critical"@[0] != "minor"@[0] && "critical"@[0] != "medium"@[0] && "critical"@[0] != "moderate"@[0]);
    assert("critical"@[0] != "high"@[0] && "critical"@[0] != "major"@[0]);
}

/// The name of a known protocol is already lower case, so
/// `TransportProto::parse(p.as_str())` gives `p` back.
pub proof fn protocol_round_trip(p: TransportProto)
    requires
        !(p is Unknown),
    ensures
        ascii_lower(p.name()) == p.name(),
        p is Tcp <==> p.name() == "tcp"@,
        p is Udp <==> p.name() == "udp"@,
        p is Can <==> p.name() == "can"@,
        p is Mqtt <==> p.name() == "mqtt"@,
{
    reveal_strlit("tcp");
    reveal_strlit("udp");
    reveal_strlit("can");
    reveal_strlit("mqtt");
    assert(ascii_lower(p.name()) =~= p.name());
    assert("tcp"@[0] != "udp"@[0] && "tcp"@[0] != "mqtt"@[0] && "udp"@[0] != "can"@[0] && "udp"@[0] != "mqtt"@[0]);
    assert("tcp"@[1] != "can"@[1] && "can"@[0] != "mqtt"@[0]);
}

/// `highest` is the greatest severity present: `None` exactly when there
/// are no diagnostics, otherwise a severity that occurs and that no
/// diagnostic exceeds.
pub proof fn highest_is_maximum(s: Seq<ErrorView>)
    ensures
        highest_of(s) is None <==> s.len() == 0,
        highest_of(s) matches Some(h) ==> (exists|i: int| 0 <= i < s.len() && s[i].severity == h),
        highest_of(s) matches Some(h) ==> (forall|i: int|
            0 <= i < s.len() ==> (#[trigger] s[i]).severity.rank() <= h.rank()),
    decreases s.len(),
{
    if s.len() > 0 {
        let p = s.drop_last();
        highest_is_maximum(p);
        assert forall|i: int| 0 <= i < p.len() implies #[trigger] s[i] == p[i] by {}
        match highest_of(p) {
            Some(h) => {
                let j = choose|j: int| 0 <= j < p.len() && p[j].severity == h;
                assert(s[j] == p[j]);
            },
            None => {},
        }
        assert(s[s.len() - 1] == s.last());
    }
}

// ---------------------------------------------------------------------------
// Byte fields
// ---------------------------------------------------------------------------

/// How many hex digits `s` holds.
pub open spec fn hex_digit_count(s: Seq<char>) -> nat
    decreases s.len(),
{
    if s.len() == 0 {
        0
    } else {
        hex_digit_count(s.drop_last()) + if hex_nibble(s.last()) is Some { 1nat } else { 0nat }
    }
}

/// Every character of `s` is a hex digit or a separator.
pub open spec fn hex_clean(s: Seq<char>) -> bool {
    forall|i: int| 0 <= i < s.len() ==> is_hex_sep(#[trigger] s[i]) || hex_nibble(s[i]) is Some
}

proof fn lemma_hex_state_count(s: Seq<char>)
    ensures
        hex_state(s) is Some <==> hex_clean(s),
        hex_state(s) matches Some((out, high)) ==> 2 * out.len() + (if high is Some { 1int } else { 0int })
            == hex_digit_count(s),
    decreases s.len(),
{
    if s.len() > 0 {
        let p = s.drop_last();
        lemma_hex_state_count(p);
        assert forall|i: int| 0 <= i < p.len() implies #[trigger] p[i] == s[i] by {}
        if hex_clean(s) {
            assert(hex_clean(p)) by {
                assert forall|i: int| 0 <= i < p.len() implies is_hex_sep(#[trigger] p[i]) || hex_nibble(p[i]) is Some by {
                    assert(p[i] == s[i]);
                }
            }
            assert(is_hex_sep(s[s.len() - 1]) || hex_nibble(s[s.len() - 1]) is Some);
        }
        if hex_clean(p) && (is_hex_sep(s.last()) || hex_nibble(s.last()) is Some) {
            assert forall|i: int| 0 <= i < s.len() implies is_hex_sep(#[trigger] s[i]) || hex_nibble(s[i]) is Some by {
                if i < p.len() {
                    assert(p[i] == s[i]);
                }
            }
        }
        if is_hex_sep(s.last()) {
            assert(hex_nibble(s.last()) is None);
        }
    }
}

/// `hex_to_bytes` fails, with a medium error, exactly when the field holds a
/// character that is neither a hex digit nor a separator; otherwise it
/// yields one byte for each two digits, a lone last digit making one more.
pub proof fn hex_to_bytes_length(s: Seq<char>)
    ensures
        spec_hex_to_bytes(s) is Err <==> !hex_clean(s),
        spec_hex_to_bytes(s) matches Err(e) ==> e.severity == Severity::Medium,
        spec_hex_to_bytes(s) matches Ok(v) ==> v.len() == (hex_digit_count(s) + 1) / 2,
{
    lemma_hex_state_count(s);
}

/// The lower-case hex digit of `n`.
pub open spec fn hex_digit_char(n: nat) -> char {
    if n < 10 {
        ((n + 48) as u32) as char
    } else {
        ((n + 87) as u32) as char
    }
}

/// The bytes written as lower-case hex, two digits each.
pub open spec fn lower_hex(b: Seq<u8>) -> Seq<char>
    decreases b.len(),
{
    if b.len() == 0 {
        Seq::empty()
    } else {
        lower_hex(b.drop_last()).push(hex_digit_char(b.last() as nat / 16)).push(hex_digit_char(b.last() as nat % 16))
    }
}

proof fn lemma_hex_digit_char(n: nat)
    requires
        n < 16,
    ensures
        hex_nibble(hex_digit_char(n)) == Some(n as u8),
        !is_hex_sep(hex_digit_char(n)),
{
    let c = hex_digit_char(n);
    if n < 10 {
        assert(c as u32 == n + 48);
    } else {
        assert(c as u32 == n + 87);
    }
}

/// Bytes written as lower-case hex decode back to themselves.
pub proof fn hex_round_trip(b: Seq<u8>)
    ensures
        spec_hex_to_bytes(lower_hex(b)) == Ok::<Seq<u8>, ErrorView>(b),
{
    lemma_hex_state_round_trip(b);
}

proof fn lemma_hex_state_round_trip(b: Seq<u8>)
    ensures
        hex_state(lower_hex(b)) == Some((b, None::<u8>)),
    decreases b.len(),
{
    if b.len() > 0 {
        let p = b.drop_last();
        let x = b.last();
        lemma_hex_state_round_trip(p);
        let hi = x as nat / 16;
        let lo = x as nat % 16;
        lemma_hex_digit_char(hi);
        lemma_hex_digit_char(lo);
        let s1 = lower_hex(p).push(hex_digit_char(hi));
        let s2 = s1.push(hex_digit_char(lo));
        assert(s2.drop_last() =~= s1);
        assert(s1.drop_last() =~= lower_hex(p));
        assert(hex_state(s1) == Some((p, Some(hi as u8))));
        assert((hi as u8 * 16 + lo as u8) as u8 == x) by {
            assert(hi * 16 + lo == x as nat);
        }
        assert(p.push(x) =~= b);
    } else {
        assert(lower_hex(b) =~= Seq::<char>::empty());
    }
}

// ---------------------------------------------------------------------------
// Numbers and endpoints
// ---------------------------------------------------------------------------

proof fn lemma_digit_char(d: nat)
    requires
        d < 10,
    ensures
        '0' <= digit_char(d) <= '9',
        digit_value(digit_char(d), 10) == Some(d),
{
    let c = digit_char(d);
    assert(c as u32 == d + 48);
}

proof fn lemma_decimal_digits(n: nat)
    ensures
        decimal(n).len() > 0,
        forall|i: int| 0 <= i < decimal(n).len() ==> '0' <= #[trigger] decimal(n)[i] <= '9',
        all_digits(decimal(n), 10),
        digits_value(decimal(n), 10) == n,
    decreases n,
{
    if n < 10 {
        lemma_digit_char(n);
        assert(decimal(n).drop_last() =~= Seq::<char>::empty());
        assert(digits_value(Seq::<char>::empty(), 10) == 0);
        assert(digits_value(decimal(n), 10) == digits_value(Seq::<char>::empty(), 10) * 10 + n);
    } else {
        let q = n / 10;
        let r = n % 10;
        lemma_decimal_digits(q);
        lemma_digit_char(r);
        let s = decimal(q);
        assert(decimal(n) == s.push(digit_char(r)));
        assert(s.push(digit_char(r)).drop_last() =~= s);
        assert(q * 10 + r == n) by (nonlinear_arith)
            requires
                q == n / 10,
                r == n % 10,
        ;
        assert(digits_value(decimal(n), 10) == digits_value(s, 10) * 10 + r);
        assert forall|i: int| 0 <= i < decimal(n).len() implies '0' <= #[trigger] decimal(n)[i] <= '9' by {
            if i < s.len() {
                assert(decimal(n)[i] == s[i]);
            }
        }
    }
}

/// A number rendered in decimal reads back as itself: `parse_u32`,
/// `parse_u16` and the other unsigned parsers invert `to_string`.
pub proof fn decimal_round_trip(n: nat, max: nat)
    requires
        n <= max,
    ensures
        parse_unsigned(decimal(n), 10, max) == Some(n),
{
    lemma_decimal_digits(n);
    assert(decimal(n)[0] != '+');
}

proof fn lemma_last_index_skip(s: Seq<char>, t: Seq<char>, c: char)
    requires
        forall|i: int| 0 <= i < t.len() ==> t[i] != c,
    ensures
        last_index_of(s + t, c) == last_index_of(s, c),
    decreases t.len(),
{
    if t.len() > 0 {
        assert((s + t).drop_last() =~= s + t.drop_last());
        assert((s + t).last() == t.last());
        lemma_last_index_skip(s, t.drop_last(), c);
    } else {
        assert(s + t =~= s);
    }
}

/// Rendering an endpoint and parsing the text back gives the endpoint:
/// `Endpoint::parse(&e.render()) == e`, whatever the host holds.
pub proof fn endpoint_round_trip(host: Seq<char>, port: u16)
    ensures
        endpoint_host(host + ":"@ + decimal(port as nat)) == host,
        endpoint_port(host + ":"@ + decimal(port as nat)) == port,
{
    reveal_strlit(":");
    let d = decimal(port as nat);
    let s = host + ":"@ + d;
    lemma_decimal_digits(port as nat);
    assert(host + ":"@ == host.push(':'));
    assert(host.push(':').drop_last() =~= host);
    lemma_last_index_skip(host.push(':'), d, ':');
    assert(last_index_of(s, ':') == host.len());
    assert(s.subrange(0, host.len() as int) =~= host);
    assert(s.subrange(host.len() as int + 1, s.len() as int) =~= d);
    decimal_round_trip(port as nat, u16::MAX as nat);
}

// ---------------------------------------------------------------------------
// Reports
// ---------------------------------------------------------------------------

/// Merging a report into an empty one yields that report.
pub proof fn merge_into_empty(r: ReportView)
    ensures
        merged(empty_report(), r) == r,
{
    let c = r.checksum;
    assert(rotl32(0, 5) == 0) by (bit_vector);
    assert(0u32 ^ c == c) by (bit_vector);
    assert(Seq::<ErrorView>::empty() + r.diagnostics =~= r.diagnostics);
}

// ---------------------------------------------------------------------------
// Reader
// ---------------------------------------------------------------------------

/// Two consecutive reads of `a` then `b` bytes succeed exactly when one read
/// of `a + b` bytes does, and end at the same position.
pub proof fn reads_compose(v: ReaderView, a: nat, b: nat)
    requires
        v.pos <= v.data.len(),
    ensures
        (take_end(v, a) is Ok && take_end(v.with_pos(take_end(v, a)->Ok_0), b) is Ok) <==> take_end(v, a + b) is Ok,
        take_end(v, a + b) is Ok ==> take_end(v.with_pos(take_end(v, a)->Ok_0), b) == take_end(v, a + b),
{
}

// ---------------------------------------------------------------------------
// Session replay
// ---------------------------------------------------------------------------

/// No two open flows share an id.
pub open spec fn ids_distinct(flows: Seq<FlowModel>) -> bool {
    forall|i: int, j: int| 0 <= i < j < flows.len() ==> #[trigger] flows[i].id != #[trigger] flows[j].id
}

/// What the tracker keeps between any two records: open flows have distinct
/// ids, at most 2048 summaries, all marked closed, are kept of closed flows,
/// at most 16384 deferred segments are held, and the next generation is never
/// zero.
pub open spec fn tracker_ok(st: TrackerView) -> bool {
    &&& ids_distinct(st.flows)
    &&& st.closed.len() <= 2048
    &&& forall|i: int| 0 <= i < st.closed.len() ==> (#[trigger] st.closed[i]).closed
    &&& st.deferred.len() <= 16384
    &&& st.next_generation >= 1
}

proof fn lemma_index_absent(flows: Seq<FlowModel>, id: u32, i: int)
    requires
        0 <= i,
        flow_index_from(flows, id, i) < 0,
    ensures
        forall|j: int| i <= j < flows.len() ==> #[trigger] flows[j].id != id,
    decreases flows.len() - i,
{
    if i < flows.len() {
        lemma_index_absent(flows, id, i + 1);
    }
}

proof fn lemma_index_found(flows: Seq<FlowModel>, id: u32, i: int)
    requires
        0 <= i,
    ensures
        -1 <= flow_index_from(flows, id, i) < flows.len(),
        flow_index_from(flows, id, i) >= 0 ==> flows[flow_index_from(flows, id, i)].id == id,
    decreases flows.len() - i,
{
    if i < flows.len() && flows[i].id != id {
        lemma_index_found(flows, id, i + 1);
    }
}

proof fn lemma_update_keeps(flows: Seq<FlowModel>, i: int, f: FlowModel)
    requires
        ids_distinct(flows),
        0 <= i < flows.len(),
        f.id == flows[i].id,
    ensures
        ids_distinct(flows.update(i, f)),
{
    let u = flows.update(i, f);
    assert forall|a: int, b: int| 0 <= a < b < u.len() implies #[trigger] u[a].id != #[trigger] u[b].id by {
        assert(u[a].id == flows[a].id);
        assert(u[b].id == flows[b].id);
    }
}

proof fn lemma_swap_remove_keeps(flows: Seq<FlowModel>, i: int)
    requires
        ids_distinct(flows),
        0 <= i < flows.len(),
    ensures
        ids_distinct(swap_removed(flows, i)),
{
    let n = flows.len() - 1;
    let u = swap_removed(flows, i);
    assert forall|a: int, b: int| 0 <= a < b < u.len() implies #[trigger] u[a].id != #[trigger] u[b].id by {
        let a1 = if a == i { n } else { a };
        let b1 = if b == i { n } else { b };
        assert(u[a] == flows[a1]);
        assert(u[b] == flows[b1]);
        if a1 < b1 {
            assert(flows[a1].id != flows[b1].id);
        } else {
            assert(flows[b1].id != flows[a1].id);
        }
    }
}

proof fn lemma_open_keeps(st: TrackerView, pp: Seq<(Seq<char>, Seq<char>)>)
    requires
        tracker_ok(st),
    ensures
        tracker_ok(spec_open_flow(st, pp)),
{
    let id = record_id(pp);
    if flow_index(st.flows, id) < 0 {
        lemma_index_absent(st.flows, id, 0);
        let r = spec_open_flow(st, pp);
        assert(r.flows == st.flows.push(new_flow(id, st.next_generation)));
        assert forall|a: int, b: int| 0 <= a < b < r.flows.len() implies #[trigger] r.flows[a].id
            != #[trigger] r.flows[b].id by {
            if b == st.flows.len() {
                assert(r.flows[a] == st.flows[a]);
            } else {
                assert(r.flows[a] == st.flows[a]);
                assert(r.flows[b] == st.flows[b]);
            }
        }
    }
}

proof fn lemma_push_keeps(st: TrackerView, pp: Seq<(Seq<char>, Seq<char>)>, deferred: bool)
    requires
        tracker_ok(st),
    ensures
        tracker_ok(spec_push_data(st, pp, deferred)),
{
    let id = record_id(pp);
    lemma_index_found(st.flows, id, 0);
    let i = flow_index(st.flows, id);
    if i >= 0 {
        let r = spec_push_data(st, pp, deferred);
        assert(r.flows == st.flows.update(i, r.flows[i]));
        lemma_update_keeps(st.flows, i, r.flows[i]);
    }
}

proof fn lemma_ack_keeps(st: TrackerView, pp: Seq<(Seq<char>, Seq<char>)>)
    requires
        tracker_ok(st),
    ensures
        tracker_ok(spec_ack(st, pp)),
{
    let id = record_id(pp);
    lemma_index_found(st.flows, id, 0);
    let i = flow_index(st.flows, id);
    if i >= 0 {
        let r = spec_ack(st, pp);
        assert(r.flows == st.flows.update(i, r.flows[i]));
        lemma_update_keeps(st.flows, i, r.flows[i]);
    }
}

proof fn lemma_close_keeps(st: TrackerView, pp: Seq<(Seq<char>, Seq<char>)>)
    requires
        tracker_ok(st),
    ensures
        tracker_ok(spec_close(st, pp)),
{
    let id = record_id(pp);
    lemma_index_found(st.flows, id, 0);
    let i = flow_index(st.flows, id);
    if i >= 0 {
        lemma_swap_remove_keeps(st.flows, i);
    }
}

proof fn lemma_inspect_keeps(st: TrackerView, pp: Seq<(Seq<char>, Seq<char>)>)
    requires
        tracker_ok(st),
    ensures
        tracker_ok(spec_inspect(st, pp)),
{
}

/// Opening a flow whose id is already open changes no flow and adds one low
/// diagnostic; otherwise it appends a fresh flow of the next generation.
/// Either way open ids stay distinct and the next generation stays non-zero.
pub proof fn open_flow_law(st: TrackerView, pp: Seq<(Seq<char>, Seq<char>)>)
    requires
        tracker_ok(st),
    ensures
        ({
            let id = record_id(pp);
            let r = spec_open_flow(st, pp);
            &&& (exists|i: int| 0 <= i < st.flows.len() && st.flows[i].id == id) ==> {
                &&& r.flows == st.flows
                &&& r.next_generation == st.next_generation
                &&& r.diagnostics == st.diagnostics.push(
                    diag(Severity::Low, "flow reopened before close"@).with_context(decimal(id as nat)),
                )
            }
            &&& !(exists|i: int| 0 <= i < st.flows.len() && st.flows[i].id == id) ==> {
                &&& r.flows == st.flows.push(new_flow(id, st.next_generation))
                &&& r.next_generation != 0
            }
            &&& ids_distinct(r.flows)
        }),
{
    let id = record_id(pp);
    lemma_index_found(st.flows, id, 0);
    if flow_index(st.flows, id) < 0 {
        lemma_index_absent(st.flows, id, 0);
    }
    lemma_open_keeps(st, pp);
}

/// An inspection touches only the session score and the diagnostics: under
/// deep inspection the score takes the samples of the flow's deferred
/// segments, and exactly one note is added when the flow has none.
pub proof fn inspect_law(st: TrackerView, pp: Seq<(Seq<char>, Seq<char>)>)
    ensures
        ({
            let r = spec_inspect(st, pp);
            let id = record_id(pp);
            let slot = match opt_u32_ok(spec_find_pair(pp, "slot"@)) {
                Some(s) => s,
                None => 0,
            };
            let policy = inspect_policy(st.policy, or_default(
                spec_find_pair(pp, "signal"@),
                "engine.rpm"@,
            ));
            let (acc, matched) = inspect_fold(st.deferred, id, policy, slot as nat, st.inspection_score, 0);
            &&& r.flows == st.flows && r.closed == st.closed && r.deferred == st.deferred && r.policy == st.policy
            &&& !policy.deep_inspect ==> r == st
            &&& policy.deep_inspect ==> r.inspection_score == acc
            &&& policy.deep_inspect && matched == 0 ==> r.diagnostics == st.diagnostics.push(
                diag(Severity::Info, "inspect found no deferred segments"@).with_context(decimal(id as nat)),
            )
            &&& policy.deep_inspect && matched > 0 ==> r.diagnostics == st.diagnostics
        }),
{
}

/// A segment sampled with declared length zero gives its seed.
pub proof fn sample_seed_law(s: SegmentModel, policy: SessionPolicy, slot: nat)
    ensures
        s.declared_len == 0 ==> spec_sample(s, policy, slot) == (s.tag as u64) ^ ((s.sequence as u64) << 17u64) ^ ((
        s.generation as u64) << 33u64),
{
}

/// Sampling never reads past the segment's data: a window that reaches
/// beyond the data samples exactly as one that stops at its end.
pub proof fn sample_stays_in_data(data: Seq<u8>, index: nat, window: nat, stride: nat, acc: u64)
    ensures
        sample_from(data, index, window, stride, acc) == sample_from(
            data,
            index,
            if window < data.len() { window } else { data.len() },
            stride,
            acc,
        ),
    decreases (if index < window { window - index } else { 0 }),
{
    if index < window && index < data.len() && stride > 0 {
        sample_stays_in_data(
            data,
            index + stride,
            window,
            stride,
            rotl64(acc, 5) ^ (data[index as int] as u64) ^ ((index as u64) << 8u64),
        );
    }
}

/// The replay starts in a state that keeps the tracker's invariant.
pub proof fn tracker_starts_ok()
    ensures
        tracker_ok(initial_tracker()),
{
}

/// Every session record keeps the tracker's invariant.
pub proof fn step_keeps_tracker_ok(st: TrackerView, line_no: nat, line: Seq<char>)
    requires
        tracker_ok(st),
    ensures
        tracker_ok(session_step(st, line_no, line)),
{
    match spec_split_record(line) {
        None => {},
        Some((kind, rest)) => {
            let pp = positional_pairs(rest);
            lemma_open_keeps(st, pp);
            lemma_push_keeps(st, pp, false);
            lemma_push_keeps(st, pp, true);
            lemma_ack_keeps(st, pp);
            lemma_close_keeps(st, pp);
            lemma_inspect_keeps(st, pp);
        },
    }
}

/// The tracker's invariant holds after any number of records.
pub proof fn replay_keeps_tracker_ok(t: Seq<char>, pos: int, line_no: nat, st: TrackerView)
    requires
        tracker_ok(st),
    ensures
        session_from(t, pos, line_no, st) matches Ok(end) ==> tracker_ok(end),
    decreases t.len() - pos,
{
    if 0 <= pos < t.len() {
        lemma_line_end(t, pos);
        let next = session_step(st, line_no, line_at(t, pos));
        step_keeps_tracker_ok(st, line_no, line_at(t, pos));
        replay_keeps_tracker_ok(t, next_line(t, pos), line_no + 1, next);
    }
}

/// Flow summaries ordered by id.
pub open spec fn sorted_by_id(s: Seq<FlowSummary>) -> bool {
    forall|i: int, j: int| 0 <= i < j < s.len() ==> #[trigger] s[i].id <= #[trigger] s[j].id
}

proof fn lemma_insert_by_id(s: Seq<FlowSummary>, x: FlowSummary)
    requires
        sorted_by_id(s),
    ensures
        sorted_by_id(insert_by_id(s, x)),
        insert_by_id(s, x).to_multiset() == s.to_multiset().insert(x),
    decreases s.len(),
{
    broadcast use vstd::seq_lib::group_to_multiset_ensures;
    if s.len() == 0 {
        assert(seq![x] == Seq::<FlowSummary>::empty().push(x));
    } else if s.last().id <= x.id {
        let r = s.push(x);
        assert forall|i: int, j: int| 0 <= i < j < r.len() implies #[trigger] r[i].id <= #[trigger] r[j].id by {
            if j == s.len() {
                if i < s.len() - 1 {
                    assert(s[i].id <= s[s.len() - 1].id);
                }
            } else {
                assert(s[i].id <= s[j].id);
            }
        }
    } else {
        let p = s.drop_last();
        let y = s.last();
        assert(sorted_by_id(p)) by {
            assert forall|i: int, j: int| 0 <= i < j < p.len() implies #[trigger] p[i].id <= #[trigger] p[j].id by {
                assert(s[i].id <= s[j].id);
            }
        }
        lemma_insert_by_id(p, x);
        let q = insert_by_id(p, x);
        let r = q.push(y);
        assert(p.push(y) =~= s);
        assert forall|i: int| 0 <= i < q.len() implies #[trigger] q[i].id <= y.id by {
            assert(q.to_multiset().count(q[i]) > 0);
            assert(q.contains(q[i]));
            if q[i] != x {
                assert(p.to_multiset().count(q[i]) > 0);
                assert(p.contains(q[i]));
                let k = choose|k: int| 0 <= k < p.len() && p[k] == q[i];
                assert(s[k].id <= s[s.len() - 1].id);
            }
        }
        assert forall|i: int, j: int| 0 <= i < j < r.len() implies #[trigger] r[i].id <= #[trigger] r[j].id by {
            if j == q.len() {
                assert(r[i] == q[i]);
                assert(q[i].id <= y.id);
            } else {
                assert(q[i].id <= q[j].id);
            }
        }
        assert(r.to_multiset() =~= q.to_multiset().insert(y));
        assert(s.to_multiset() =~= p.to_multiset().insert(y));
    }
}

/// Sorting by id orders the summaries and keeps each of them exactly once.
pub proof fn sort_by_id_sorts(s: Seq<FlowSummary>)
    ensures
        sorted_by_id(sort_by_id(s)),
        sort_by_id(s).to_multiset() == s.to_multiset(),
    decreases s.len(),
{
    broadcast use vstd::seq_lib::group_to_multiset_ensures;
    if s.len() > 0 {
        sort_by_id_sorts(s.drop_last());
        lemma_insert_by_id(sort_by_id(s.drop_last()), s.last());
        assert(s.drop_last().push(s.last()) =~= s);
    } else {
        assert(s.to_multiset() =~= Multiset::<FlowSummary>::empty());
    }
}

/// How many summaries are of closed flows.
pub open spec fn closed_count(s: Seq<FlowSummary>) -> nat
    decreases s.len(),
{
    if s.len() == 0 {
        0
    } else {
        closed_count(s.drop_last()) + if s.last().closed { 1nat } else { 0nat }
    }
}

/// Summaries of open flows (not marked closed) have pairwise distinct ids.
pub open spec fn open_ids_distinct(s: Seq<FlowSummary>) -> bool {
    forall|i: int, j: int|
        0 <= i < j < s.len() && !s[i].closed && !s[j].closed ==> #[trigger] s[i].id != #[trigger] s[j].id
}

proof fn lemma_closed_count_insert(s: Seq<FlowSummary>, x: FlowSummary)
    ensures
        closed_count(insert_by_id(s, x)) == closed_count(s) + if x.closed { 1nat } else { 0nat },
    decreases s.len(),
{
    if s.len() > 0 && s.last().id > x.id {
        lemma_closed_count_insert(s.drop_last(), x);
        let q = insert_by_id(s.drop_last(), x);
        assert(q.push(s.last()).drop_last() =~= q);
        assert(q.push(s.last()).last() == s.last());
        assert(closed_count(q.push(s.last())) == closed_count(q) + if s.last().closed { 1nat } else { 0nat });
    } else if s.len() > 0 {
        assert(s.push(x).drop_last() =~= s);
        assert(s.push(x).last() == x);
    } else {
        assert(seq![x].drop_last() =~= Seq::<FlowSummary>::empty());
        assert(closed_count(Seq::<FlowSummary>::empty()) == 0);
        assert(seq![x].last() == x);
    }
}

proof fn lemma_closed_count_sort(s: Seq<FlowSummary>)
    ensures
        closed_count(sort_by_id(s)) == closed_count(s),
    decreases s.len(),
{
    if s.len() > 0 {
        lemma_closed_count_sort(s.drop_last());
        lemma_closed_count_insert(sort_by_id(s.drop_last()), s.last());
    }
}

proof fn lemma_closed_count_append(a: Seq<FlowSummary>, b: Seq<FlowSummary>)
    ensures
        closed_count(a + b) == closed_count(a) + closed_count(b),
    decreases b.len(),
{
    if b.len() > 0 {
        lemma_closed_count_append(a, b.drop_last());
        assert((a + b).drop_last() =~= a + b.drop_last());
        assert((a + b).last() == b.last());
    } else {
        assert(a + b =~= a);
    }
}

proof fn lemma_closed_count_bounds(s: Seq<FlowSummary>)
    ensures
        closed_count(s) <= s.len(),
        (forall|i: int| 0 <= i < s.len() ==> !(#[trigger] s[i]).closed) ==> closed_count(s) == 0,
    decreases s.len(),
{
    if s.len() > 0 {
        lemma_closed_count_bounds(s.drop_last());
        assert forall|i: int| 0 <= i < s.len() - 1 implies #[trigger] s.drop_last()[i] == s[i] by {}
        assert(s.last() == s[s.len() - 1]);
    }
}

proof fn lemma_count_two(r: Seq<FlowSummary>, i: int, j: int)
    requires
        0 <= i < j < r.len(),
        r[i] == r[j],
    ensures
        r.to_multiset().count(r[i]) >= 2,
{
    broadcast use vstd::seq_lib::group_to_multiset_ensures;
    broadcast use vstd::multiset::group_multiset_axioms;

    let q = r.remove(i);
    assert(q[j - 1] == r[j]);
    assert(q.contains(r[i]));
    assert(q.to_multiset().count(r[i]) > 0);
}

proof fn lemma_open_report(c: Seq<FlowSummary>, flows: Seq<FlowModel>)
    requires
        ids_distinct(flows),
        forall|i: int| 0 <= i < c.len() ==> (#[trigger] c[i]).closed,
    ensures
        open_ids_distinct(sort_by_id(c + open_summaries(flows))),
{
    broadcast use vstd::seq_lib::group_to_multiset_ensures;
    broadcast use vstd::multiset::group_multiset_axioms;

    let o = open_summaries(flows);
    let r = sort_by_id(c + o);
    sort_by_id_sorts(c + o);
    vstd::seq_lib::lemma_multiset_commutative(c, o);
    assert(o.no_duplicates()) by {
        assert forall|a: int, b: int| 0 <= a < o.len() && 0 <= b < o.len() && a != b implies o[a] != o[b] by {
            if a < b {
                assert(flows[a].id != flows[b].id);
            } else {
                assert(flows[b].id != flows[a].id);
            }
        }
    }
    o.lemma_multiset_has_no_duplicates();
    assert forall|i: int, j: int|
        0 <= i < j < r.len() && !r[i].closed && !r[j].closed implies #[trigger] r[i].id != #[trigger] r[j].id by {
        if r[i].id == r[j].id {
            let x = r[i];
            let y = r[j];
            assert(r.to_multiset().count(x) > 0);
            assert(r.to_multiset().count(y) > 0);
            assert(!c.contains(x)) by {
                if c.contains(x) {
                    let k = choose|k: int| 0 <= k < c.len() && c[k] == x;
                    assert(c[k].closed);
                }
            }
            assert(!c.contains(y)) by {
                if c.contains(y) {
                    let k = choose|k: int| 0 <= k < c.len() && c[k] == y;
                    assert(c[k].closed);
                }
            }
            assert(c.to_multiset().count(x) == 0);
            assert(c.to_multiset().count(y) == 0);
            assert(o.contains(x));
            assert(o.contains(y));
            let kx = choose|k: int| 0 <= k < o.len() && o[k] == x;
            let ky = choose|k: int| 0 <= k < o.len() && o[k] == y;
            if kx != ky {
                if kx < ky {
                    assert(flows[kx].id != flows[ky].id);
                } else {
                    assert(flows[ky].id != flows[kx].id);
                }
            }
            assert(x == y);
            lemma_count_two(r, i, j);
            assert(o.to_multiset().count(x) == 1);
        }
    }
}

/// A replayed tape reports its flows ordered by id, each kept closed flow
/// and each open flow exactly once: open entries have distinct ids, at most
/// 2048 entries are closed, and at most 16384 deferred segments are counted.
pub proof fn replay_report_ordered(data: Seq<u8>)
    ensures
        spec_replay(data) matches Ok(r) ==> {
            &&& sorted_by_id(r.flows)
            &&& open_ids_distinct(r.flows)
            &&& closed_count(r.flows) <= 2048
            &&& r.deferred_segments <= 16384
        },
        session_from(lossy_text(data), 0, 0, initial_tracker()) matches Ok(st) ==> spec_replay(data)->Ok_0.flows.to_multiset()
            == (st.closed + open_summaries(st.flows)).to_multiset(),
{
    replay_keeps_tracker_ok(lossy_text(data), 0, 0, initial_tracker());
    match session_from(lossy_text(data), 0, 0, initial_tracker()) {
        Ok(st) => {
            let o = open_summaries(st.flows);
            sort_by_id_sorts(st.closed + o);
            lemma_open_report(st.closed, st.flows);
            lemma_closed_count_sort(st.closed + o);
            lemma_closed_count_append(st.closed, o);
            lemma_closed_count_bounds(st.closed);
            lemma_closed_count_bounds(o);
        },
        Err(_) => {},
    }
}

// ---------------------------------------------------------------------------
// Binary frames
// ---------------------------------------------------------------------------

/// `v` as two little-endian bytes.
pub open spec fn le16_bytes(v: u16) -> Seq<u8> {
    seq![(v % 256) as u8, (v / 256) as u8]
}

/// `v` as four little-endian bytes.
pub open spec fn le32_bytes(v: u32) -> Seq<u8> {
    seq![(v % 256) as u8, ((v / 256) % 256) as u8, ((v / 65536) % 256) as u8, (v / 16777216) as u8]
}

/// The encoding of one frame given as (kind byte, flags, sequence, payload):
/// `IF`, kind, flags, sequence, payload length, payload, CRC-16/X.25 of the
/// payload, the numbers little-endian.
pub open spec fn encode_frame(f: (u8, u8, u32, Seq<u8>)) -> Seq<u8> {
    seq![73u8, 70u8, f.0, f.1] + le32_bytes(f.2) + le16_bytes(f.3.len() as u16) + f.3 + le16_bytes(
        spec_crc16_x25(f.3),
    )
}

/// The frames' encodings, one after the other.
pub open spec fn encode_frames(fs: Seq<(u8, u8, u32, Seq<u8>)>) -> Seq<u8>
    decreases fs.len(),
{
    if fs.len() == 0 {
        Seq::empty()
    } else {
        encode_frame(fs[0]) + encode_frames(fs.drop_first())
    }
}

/// The frame that the decoder reads back from an encoding.
pub open spec fn frame_of(f: (u8, u8, u32, Seq<u8>)) -> FrameView {
    make_frame(FrameKind::of_byte(f.0), f.1, f.2, f.3, true)
}

proof fn lemma_le16_bytes(v: u16)
    ensures
        le16(le16_bytes(v), 0) == v,
{
    let b = le16_bytes(v);
    assert((v % 256) + 256 * (v / 256) == v) by (nonlinear_arith);
    assert(b[0] as int == v % 256);
    assert(b[1] as int == v / 256);
}

proof fn lemma_le32_bytes(v: u32)
    ensures
        le32(le32_bytes(v), 0) == v,
{
    let b = le32_bytes(v);
    assert(v % 256 + 256 * ((v / 256) % 256) + 65536 * ((v / 65536) % 256) + 16777216 * (v / 16777216) == v)
        by (nonlinear_arith);
    assert(b[0] as int == v % 256);
    assert(b[1] as int == (v / 256) % 256);
    assert(b[2] as int == (v / 65536) % 256);
    assert(b[3] as int == v / 16777216);
}

proof fn lemma_frame_at(pre: Seq<u8>, f: (u8, u8, u32, Seq<u8>), rest: Seq<u8>)
    requires
        f.3.len() <= 65535,
        (pre + encode_frame(f) + rest).len() <= usize::MAX,
    ensures
        encode_frame(f).len() == f.3.len() + 12,
        binary_frame_at(pre + encode_frame(f) + rest, pre.len()) == Ok::<(FrameView, nat), ErrorView>(
            (frame_of(f), pre.len() + encode_frame(f).len()),
        ),
{
    let e = encode_frame(f);
    let data = pre + e + rest;
    let p = pre.len() as int;
    let n = f.3.len() as int;
    let b32 = le32_bytes(f.2);
    let b16 = le16_bytes(n as u16);
    let crc = le16_bytes(spec_crc16_x25(f.3));
    assert(e =~= seq![73u8, 70u8, f.0, f.1] + b32 + b16 + f.3 + crc);
    assert forall|k: int| 0 <= k < e.len() implies #[trigger] data[p + k] == e[k] by {}
    assert(data[p] == 73u8 && data[p + 1] == 70u8 && data[p + 2] == f.0 && data[p + 3] == f.1) by {
        assert(data[p] == e[0] && data[p + 1] == e[1] && data[p + 2] == e[2] && data[p + 3] == e[3]);
    }
    lemma_le32_bytes(f.2);
    assert(le32(data, p + 4) == le32(b32, 0)) by {
        assert(data[p + 4] == e[4] && data[p + 5] == e[5] && data[p + 6] == e[6] && data[p + 7] == e[7]);
    }
    lemma_le16_bytes(n as u16);
    assert(le16(data, p + 8) == le16(b16, 0)) by {
        assert(data[p + 8] == e[8] && data[p + 9] == e[9]);
    }
    assert(n as u16 == n);
    assert(data.subrange(p + 10, p + 10 + n) =~= f.3) by {
        assert forall|k: int| 0 <= k < n implies data[p + 10 + k] == f.3[k] by {
            assert(data[p + 10 + k] == e[10 + k]);
        }
    }
    lemma_le16_bytes(spec_crc16_x25(f.3));
    assert(le16(data, p + 10 + n) == le16(crc, 0)) by {
        assert(data[p + 10 + n] == e[10 + n] && data[p + 11 + n] == e[11 + n]);
    }
}

proof fn lemma_frames_from(pre: Seq<u8>, fs: Seq<(u8, u8, u32, Seq<u8>)>, acc: Seq<FrameView>)
    requires
        forall|i: int| 0 <= i < fs.len() ==> (#[trigger] fs[i]).3.len() <= 65535,
        acc.len() + fs.len() <= 4096,
        (pre + encode_frames(fs)).len() <= usize::MAX,
    ensures
        binary_frames_from(pre + encode_frames(fs), pre.len(), acc) == Ok::<Seq<FrameView>, ErrorView>(
            acc + fs.map_values(|f: (u8, u8, u32, Seq<u8>)| frame_of(f)),
        ),
    decreases fs.len(),
{
    let m = fs.map_values(|f: (u8, u8, u32, Seq<u8>)| frame_of(f));
    if fs.len() == 0 {
        assert(pre + encode_frames(fs) =~= pre);
        assert(acc + m =~= acc);
    } else {
        let e = encode_frame(fs[0]);
        let r = encode_frames(fs.drop_first());
        assert(pre + encode_frames(fs) =~= pre + e + r);
        lemma_frame_at(pre, fs[0], r);
        assert(pre + e + r =~= (pre + e) + r);
        let rest = fs.drop_first();
        assert forall|i: int| 0 <= i < rest.len() implies (#[trigger] rest[i]).3.len() <= 65535 by {
            assert(rest[i] == fs[i + 1]);
        }
        lemma_frames_from(pre + e, rest, acc.push(frame_of(fs[0])));
        assert(acc.push(frame_of(fs[0])) + rest.map_values(|f: (u8, u8, u32, Seq<u8>)| frame_of(f)) =~= acc + m);
    }
}

/// Decoding the encodings of at most 4096 frames, one after the other, gives
/// those frames back, each with a valid checksum.
pub proof fn binary_frames_round_trip(fs: Seq<(u8, u8, u32, Seq<u8>)>)
    requires
        forall|i: int| 0 <= i < fs.len() ==> (#[trigger] fs[i]).3.len() <= 65535,
        fs.len() <= 4096,
        encode_frames(fs).len() <= usize::MAX,
    ensures
        binary_frames_from(encode_frames(fs), 0, Seq::empty()) == Ok::<Seq<FrameView>, ErrorView>(
            fs.map_values(|f: (u8, u8, u32, Seq<u8>)| frame_of(f)),
        ),
        !has_prefix(encode_frames(fs), archive_magic()) && !has_prefix(encode_frames(fs), session_magic())
            ==> spec_frame_stream(encode_frames(fs)) == Ok::<Seq<FrameView>, ErrorView>(
            fs.map_values(|f: (u8, u8, u32, Seq<u8>)| frame_of(f)),
        ),
{
    let empty = Seq::<u8>::empty();
    assert(empty + encode_frames(fs) =~= encode_frames(fs));
    lemma_frames_from(empty, fs, Seq::empty());
    assert(Seq::<FrameView>::empty() + fs.map_values(|f: (u8, u8, u32, Seq<u8>)| frame_of(f)) =~= fs.map_values(
        |f: (u8, u8, u32, Seq<u8>)| frame_of(f),
    ));
}

// ---------------------------------------------------------------------------
// Decoder limits
// ---------------------------------------------------------------------------

proof fn lemma_frames_within(data: Seq<u8>, pos: nat, acc: Seq<FrameView>)
    requires
        acc.len() <= 4096,
    ensures
        binary_frames_from(data, pos, acc) matches Ok(fs) ==> fs.len() <= 4096,
    decreases data.len() - pos,
{
    if pos + 10 <= data.len() {
        match binary_frame_at(data, pos) {
            Ok((f, next)) => {
                if next > pos && acc.len() + 1 <= 4096 {
                    lemma_frames_within(data, next, acc.push(f));
                }
            },
            Err(_) => {},
        }
    }
}

/// A binary frame stream never yields more than 4096 frames.
pub proof fn frame_stream_within_limits(data: Seq<u8>)
    ensures
        !has_prefix(data, archive_magic()) && !has_prefix(data, session_magic()) ==> (spec_frame_stream(data) matches Ok(
            fs,
        ) ==> fs.len() <= 4096),
{
    lemma_frames_within(data, 0, Seq::empty());
}

proof fn lemma_manifest_within(t: Seq<char>, pos: int, line_no: nat, b: BookView)
    requires
        b.routes.len() <= 2048,
        b.waypoints.len() <= 8192,
    ensures
        manifest_from(t, pos, line_no, b) matches Ok(end) ==> end.routes.len() <= 2048 && end.waypoints.len() <= 8192,
    decreases t.len() - pos,
{
    if 0 <= pos < t.len() {
        lemma_line_end(t, pos);
        let next = manifest_step(b, line_no, line_at(t, pos));
        if next.routes.len() <= 2048 && next.waypoints.len() <= 8192 {
            lemma_manifest_within(t, next_line(t, pos), line_no + 1, next);
        }
    }
}

/// A decoded route manifest holds at most 2048 routes and 8192 waypoints.
pub proof fn manifest_within_limits(data: Seq<u8>)
    ensures
        spec_route_manifest(data) matches Ok(b) ==> b.routes.len() <= 2048 && b.waypoints.len() <= 8192,
{
    lemma_manifest_within(lossy_text(data), 0, 0, empty_book());
}

proof fn lemma_program_within(t: Seq<char>, pos: int, line_no: nat, p: ProgramView)
    requires
        p.rules.len() <= 4096,
    ensures
        program_from(t, pos, line_no, p) matches Ok(end) ==> end.rules.len() <= 4096,
    decreases t.len() - pos,
{
    if 0 <= pos < t.len() {
        lemma_line_end(t, pos);
        let next = program_step(p, line_no, line_at(t, pos));
        if next.rules.len() <= 4096 {
            lemma_program_within(t, next_line(t, pos), line_no + 1, next);
        }
    }
}

/// A decoded alert program holds at most 4096 rules.
pub proof fn program_within_limits(data: Seq<u8>)
    ensures
        spec_alert_program(data) matches Ok(p) ==> p.rules.len() <= 4096,
{
    lemma_program_within(lossy_text(data), 0, 0, empty_program());
}

proof fn lemma_session_within(t: Seq<char>, pos: int, line_no: nat, st: TrackerView)
    requires
        st.flows.len() <= 4096,
    ensures
        session_from(t, pos, line_no, st) matches Ok(end) ==> end.flows.len() <= 4096,
    decreases t.len() - pos,
{
    if 0 <= pos < t.len() {
        lemma_line_end(t, pos);
        let next = session_step(st, line_no, line_at(t, pos));
        if next.flows.len() <= 4096 {
            lemma_session_within(t, next_line(t, pos), line_no + 1, next);
        }
    }
}

/// A replayed tape reports at most 6144 flows: 2048 kept closed ones and
/// 4096 open ones.
pub proof fn replay_within_limits(data: Seq<u8>)
    ensures
        spec_replay(data) matches Ok(r) ==> r.flows.len() <= 6144,
{
    lemma_session_within(lossy_text(data), 0, 0, initial_tracker());
    replay_keeps_tracker_ok(lossy_text(data), 0, 0, initial_tracker());
    match session_from(lossy_text(data), 0, 0, initial_tracker()) {
        Ok(st) => {
            sort_by_id_sorts(st.closed + open_summaries(st.flows));
            vstd::seq_lib::lemma_multiset_commutative(st.closed, open_summaries(st.flows));
            broadcast use vstd::seq_lib::group_to_multiset_ensures;
            assert(sort_by_id(st.closed + open_summaries(st.flows)).len() == (st.closed + open_summaries(
                st.flows,
            )).len()) by {
                assert(sort_by_id(st.closed + open_summaries(st.flows)).to_multiset().len() == (st.closed
                    + open_summaries(st.flows)).to_multiset().len());
            }
        },
        Err(_) => {},
    }
}

proof fn lemma_archive_within(t: Seq<char>, pos: int, line_no: nat, a: ArchiveState)
    requires
        a.doc.metadata.len() <= 4096,
        a.doc.sensors.len() <= 16384,
        a.doc.alerts.rules.len() <= 4096,
        a.doc.sessions.len() == 0,
    ensures
        archive_from(t, pos, line_no, a) matches Ok(end) ==> end.doc.metadata.len() <= 4096
            && end.doc.sensors.len() <= 16384 && end.doc.alerts.rules.len() <= 4096 && end.doc.sessions.len() == 0,
    decreases t.len() - pos,
{
    if 0 <= pos < t.len() {
        lemma_line_end(t, pos);
        let next = archive_step(a, line_no, line_at(t, pos));
        if next.doc.metadata.len() <= 4096 && next.doc.sensors.len() <= 16384 && next.doc.alerts.rules.len() <= 4096 {
            lemma_archive_within(t, next_line(t, pos), line_no + 1, next);
        }
    }
}

/// A decoded archive holds at most 4096 metadata entries, 16384 sensor
/// samples and 4096 alert rules, and at most one replayed session.
pub proof fn archive_within_limits(data: Seq<u8>)
    ensures
        spec_decode_archive(data) matches Ok(d) ==> d.metadata.len() <= 4096 && d.sensors.len() <= 16384
            && d.alerts.rules.len() <= 4096 && d.sessions.len() <= 1,
{
    lemma_archive_within(lossy_text(data), 0, 0, initial_archive());
}

// ---------------------------------------------------------------------------
// What records mean
// ---------------------------------------------------------------------------

proof fn lemma_find_first(pp: Seq<(Seq<char>, Seq<char>)>, name: Seq<char>, k: int, i: int)
    requires
        0 <= i <= k < pp.len(),
        eq_ic(pp[k].0, name),
        forall|j: int| 0 <= j < k ==> !eq_ic(#[trigger] pp[j].0, name),
    ensures
        find_pair_from(pp, name, i) == Some(pp[k].1),
    decreases k - i,
{
    if i < k {
        lemma_find_first(pp, name, k, i + 1);
    }
}

proof fn lemma_find_none(pp: Seq<(Seq<char>, Seq<char>)>, name: Seq<char>, i: int)
    requires
        0 <= i,
        forall|j: int| 0 <= j < pp.len() ==> !eq_ic(#[trigger] pp[j].0, name),
    ensures
        find_pair_from(pp, name, i) is None,
    decreases pp.len() - i,
{
    if i < pp.len() {
        lemma_find_none(pp, name, i + 1);
    }
}

/// The number `v` reads as, 0 when it does not parse.
pub open spec fn u32_or_zero(v: Seq<char>) -> u32 {
    match spec_parse_u32(v) {
        Ok(n) => n,
        Err(_) => 0,
    }
}

/// A session record is applied to the flow its first `id` pair names (keys
/// compared ignoring ASCII case), wherever that pair stands among the
/// record's pairs.
pub proof fn record_id_names_the_id_pair(pp: Seq<(Seq<char>, Seq<char>)>, k: int)
    requires
        0 <= k < pp.len(),
        eq_ic(pp[k].0, "id"@),
        forall|j: int| 0 <= j < k ==> !eq_ic(#[trigger] pp[j].0, "id"@),
    ensures
        record_id(pp) == u32_or_zero(pp[k].1),
{
    lemma_find_first(pp, "id"@, k, 0);
}

/// Only a record without an `id` pair is applied to the flow its first value
/// names; a record with no pairs at all is applied to flow 0.
pub proof fn record_id_without_id_pair(pp: Seq<(Seq<char>, Seq<char>)>)
    requires
        forall|j: int| 0 <= j < pp.len() ==> !eq_ic(#[trigger] pp[j].0, "id"@),
    ensures
        pp.len() == 0 ==> record_id(pp) == 0,
        pp.len() > 0 ==> record_id(pp) == u32_or_zero(pp[0].1),
{
    lemma_find_none(pp, "id"@, 0);
}

/// A `data` or `defer` record whose first `id` pair names an open flow adds
/// one chunk of its decoded bytes to that flow, and only to that flow.
pub proof fn data_goes_to_named_flow(
    st: TrackerView,
    pp: Seq<(Seq<char>, Seq<char>)>,
    deferred: bool,
    k: int,
    i: int,
    bytes: Seq<u8>,
)
    requires
        tracker_ok(st),
        0 <= k < pp.len(),
        eq_ic(pp[k].0, "id"@),
        forall|j: int| 0 <= j < k ==> !eq_ic(#[trigger] pp[j].0, "id"@),
        0 <= i < st.flows.len(),
        st.flows[i].id == u32_or_zero(pp[k].1),
        spec_hex_to_bytes(or_default(either(spec_find_pair(pp, "data"@), spec_find_pair(pp, "hex"@)), Seq::empty()))
            == Ok::<Seq<u8>, ErrorView>(bytes),
    ensures
        ({
            let r = spec_push_data(st, pp, deferred);
            &&& r.flows.len() == st.flows.len()
            &&& r.flows[i].id == st.flows[i].id
            &&& r.flows[i].chunks == (st.flows[i].chunks + 1) as usize
            &&& r.flows[i].bytes == (st.flows[i].bytes + bytes.len()) as usize
            &&& r.bytes_seen == (st.bytes_seen + bytes.len()) as usize
            &&& forall|j: int| 0 <= j < st.flows.len() && j != i ==> r.flows[j] == st.flows[j]
        }),
{
    let id = record_id(pp);
    record_id_names_the_id_pair(pp, k);
    lemma_index_found(st.flows, id, 0);
    if flow_index(st.flows, id) < 0 {
        lemma_index_absent(st.flows, id, 0);
        assert(st.flows[i].id != id);
    }
    let f = flow_index(st.flows, id);
    if f != i {
        if f < i {
            assert(st.flows[f].id != st.flows[i].id);
        } else {
            assert(st.flows[i].id != st.flows[f].id);
        }
    }
}

/// Count of the frames of kind `k`.
pub open spec fn frames_of_kind(fs: Seq<FrameView>, k: FrameKind) -> nat {
    fs.filter(|f: FrameView| f.kind == k).len()
}

/// A frame stream's report counts the frames of each kind: metadata, route,
/// sensor, alert and session frames each in their own count.
pub proof fn frame_report_counts_kinds(fs: Seq<FrameView>)
    ensures
        frames_report(fs).metadata_count == frames_of_kind(fs, FrameKind::Metadata),
        frames_report(fs).route_count == frames_of_kind(fs, FrameKind::Route),
        frames_report(fs).sensor_count == frames_of_kind(fs, FrameKind::Sensor),
        frames_report(fs).alert_count == frames_of_kind(fs, FrameKind::Alert),
        frames_report(fs).flow_count == frames_of_kind(fs, FrameKind::Session),
        frames_report(fs).waypoint_count == 0,
    decreases fs.len(),
{
    reveal_with_fuel(Seq::<FrameView>::filter, 1);
    if fs.len() > 0 {
        frame_report_counts_kinds(fs.drop_last());
    }
}

proof fn lemma_prefix_chars(l: Seq<char>, p: Seq<char>)
    requires
        starts_with(l, p),
    ensures
        p.len() > 0 ==> l[0] == p[0],
        p.len() > 1 ==> l[1] == p[1],
{
    if p.len() > 0 {
        assert(l.subrange(0, p.len() as int)[0] == l[0]);
    }
    if p.len() > 1 {
        assert(l.subrange(0, p.len() as int)[1] == l[1]);
    }
}

/// Whether a text-tape line is a session record.
pub open spec fn session_keyword_line(l: Seq<char>) -> bool {
    ||| starts_with(l, "flow "@)
    ||| starts_with(l, "data "@)
    ||| starts_with(l, "defer "@)
    ||| starts_with(l, "ack "@)
    ||| starts_with(l, "close "@)
    ||| starts_with(l, "inspect "@)
    ||| starts_with(l, "config "@)
}

/// In a text tape each record keyword gives its own frame kind: `meta` a
/// metadata frame, `route` and `waypoint` a route frame, `sensor` a sensor
/// frame, `alert` an alert frame, and the session records a session frame
/// with flags 1; any other line an unknown frame.
pub proof fn line_kind_by_keyword(l: Seq<char>)
    ensures
        starts_with(l, "meta "@) ==> line_kind(l) == (FrameKind::Metadata, 0u8),
        starts_with(l, "route "@) || starts_with(l, "waypoint "@) ==> line_kind(l) == (FrameKind::Route, 0u8),
        starts_with(l, "sensor "@) ==> line_kind(l) == (FrameKind::Sensor, 0u8),
        starts_with(l, "alert "@) ==> line_kind(l) == (FrameKind::Alert, 0u8),
        session_keyword_line(l) ==> line_kind(l) == (FrameKind::Session, 1u8),
        !starts_with(l, "meta "@) && !starts_with(l, "route "@) && !starts_with(l, "waypoint "@) && !starts_with(
            l,
            "sensor "@,
        ) && !starts_with(l, "alert "@) && !session_keyword_line(l) ==> line_kind(l) == (FrameKind::Unknown(0xff), 0u8),
{
    reveal_strlit("meta ");
    reveal_strlit("route ");
    reveal_strlit("waypoint ");
    reveal_strlit("sensor ");
    reveal_strlit("alert ");
    reveal_strlit("flow ");
    reveal_strlit("data ");
    reveal_strlit("defer ");
    reveal_strlit("ack ");
    reveal_strlit("close ");
    reveal_strlit("inspect ");
    reveal_strlit("config ");
    if starts_with(l, "meta "@) {
        lemma_prefix_chars(l, "meta "@);
    }
    if starts_with(l, "route "@) {
        lemma_prefix_chars(l, "route "@);
    }
    if starts_with(l, "waypoint "@) {
        lemma_prefix_chars(l, "waypoint "@);
    }
    if starts_with(l, "sensor "@) {
        lemma_prefix_chars(l, "sensor "@);
    }
    if starts_with(l, "alert "@) {
        lemma_prefix_chars(l, "alert "@);
    }
    if starts_with(l, "flow "@) {
        lemma_prefix_chars(l, "flow "@);
    }
    if starts_with(l, "data "@) {
        lemma_prefix_chars(l, "data "@);
    }
    if starts_with(l, "defer "@) {
        lemma_prefix_chars(l, "defer "@);
    }
    if starts_with(l, "ack "@) {
        lemma_prefix_chars(l, "ack "@);
    }
    if starts_with(l, "close "@) {
        lemma_prefix_chars(l, "close "@);
    }
    if starts_with(l, "inspect "@) {
        lemma_prefix_chars(l, "inspect "@);
    }
    if starts_with(l, "config "@) {
        lemma_prefix_chars(l, "config "@);
    }
}

/// The smaller of `a` and `b`.
pub open spec fn min_int(a: int, b: int) -> int {
    if a < b {
        a
    } else {
        b
    }
}

/// A route leg's risk is its `risk` value capped at 100, raised by the bias
/// of a known route profile named by `profile` and capped at 100 again; a
/// leg without a known profile keeps the capped value.
pub proof fn route_risk_law(pairs: Seq<(Seq<char>, Seq<char>)>)
    ensures
        spec_route_leg(pairs) matches Ok(leg) ==> {
            let r: int = match spec_find_pair(pairs, "risk"@) {
                Some(v) => u32_or_zero(v) as int,
                None => 0,
            };
            let base = min_int(r, 100);
            let bias: Option<u8> = match spec_find_pair(pairs, "profile"@) {
                Some(p) => profile_bias(p),
                None => None,
            };
            &&& bias matches Some(b) ==> leg.risk == min_int(base + b, 100)
            &&& bias is None ==> leg.risk == base
        },
{
}

/// The names an operator is written with.
pub open spec fn op_names(op: ComparisonOp) -> Set<Seq<char>> {
    match op {
        ComparisonOp::Less => set!["<"@, "lt"@],
        ComparisonOp::LessEqual => set!["<="@, "le"@],
        ComparisonOp::Equal => set!["="@, "=="@, "eq"@],
        ComparisonOp::NotEqual => set!["!="@, "ne"@],
        ComparisonOp::GreaterEqual => set![">="@, "ge"@],
        ComparisonOp::Greater => set![">"@, "gt"@],
        ComparisonOp::Contains => set!["contains"@, "has"@],
    }
}

/// Each operator token reads as the operator it names, and no other token
/// reads as an operator.
pub proof fn comparison_names_law(s: Seq<char>, op: ComparisonOp)
    ensures
        comparison_named(s) == Some(op) <==> op_names(op).contains(s),
        comparison_named(s) is None <==> forall|o: ComparisonOp| !(#[trigger] op_names(o)).contains(s),
{
    reveal_strlit("<");
    reveal_strlit("lt");
    reveal_strlit("<=");
    reveal_strlit("le");
    reveal_strlit("=");
    reveal_strlit("==");
    reveal_strlit("eq");
    reveal_strlit("!=");
    reveal_strlit("ne");
    reveal_strlit(">=");
    reveal_strlit("ge");
    reveal_strlit(">");
    reveal_strlit("gt");
    reveal_strlit("contains");
    reveal_strlit("has");
    assert(comparison_named("<"@) == Some(ComparisonOp::Less));
    assert(comparison_named("lt"@) == Some(ComparisonOp::Less));
    assert("<"@.len() == 1 && "<"@[0] == '<');
    assert("lt"@.len() == 2 && "lt"@[0] == 'l' && "lt"@[1] == 't');
    assert("<="@.len() == 2 && "<="@[0] == '<' && "<="@[1] == '=');
    assert("le"@.len() == 2 && "le"@[0] == 'l' && "le"@[1] == 'e');
    assert("="@.len() == 1 && "="@[0] == '=');
    assert("=="@.len() == 2 && "=="@[0] == '=' && "=="@[1] == '=');
    assert("eq"@.len() == 2 && "eq"@[0] == 'e' && "eq"@[1] == 'q');
    assert("!="@.len() == 2 && "!="@[0] == '!' && "!="@[1] == '=');
    assert("ne"@.len() == 2 && "ne"@[0] == 'n' && "ne"@[1] == 'e');
    assert(">="@.len() == 2 && ">="@[0] == '>' && ">="@[1] == '=');
    assert("ge"@.len() == 2 && "ge"@[0] == 'g' && "ge"@[1] == 'e');
    assert(">"@.len() == 1 && ">"@[0] == '>');
    assert("gt"@.len() == 2 && "gt"@[0] == 'g' && "gt"@[1] == 't');
    assert("contains"@.len() == 8 && "contains"@[0] == 'c' && "contains"@[1] == 'o');
    assert("has"@.len() == 3 && "has"@[0] == 'h' && "has"@[1] == 'a');
    assert(comparison_named("<="@) == Some(ComparisonOp::LessEqual));
    assert(comparison_named("le"@) == Some(ComparisonOp::LessEqual));
    assert(comparison_named("="@) == Some(ComparisonOp::Equal));
    assert(comparison_named("=="@) == Some(ComparisonOp::Equal));
    assert(comparison_named("eq"@) == Some(ComparisonOp::Equal));
    assert(comparison_named("!="@) == Some(ComparisonOp::NotEqual));
    assert(comparison_named("ne"@) == Some(ComparisonOp::NotEqual));
    assert(comparison_named(">="@) == Some(ComparisonOp::GreaterEqual));
    assert(comparison_named("ge"@) == Some(ComparisonOp::GreaterEqual));
    assert(comparison_named(">"@) == Some(ComparisonOp::Greater));
    assert(comparison_named("gt"@) == Some(ComparisonOp::Greater));
    assert(comparison_named("contains"@) == Some(ComparisonOp::Contains));
    assert(comparison_named("has"@) == Some(ComparisonOp::Contains));
    if comparison_named(s) is Some {
        let o = comparison_named(s)->Some_0;
        assert(op_names(o).contains(s));
    } else {
        assert forall|o: ComparisonOp| !(#[trigger] op_names(o)).contains(s) by {
            if op_names(o).contains(s) {
                assert(comparison_named(s) == Some(o));
            }
        }
    }
}

/// An alert rule compares with the operator its `op` pair names; a rule
/// without an `op` pair, or whose `op` names no operator, compares with
/// `Greater`.
pub proof fn alert_rule_operator(pairs: Seq<(Seq<char>, Seq<char>)>, op: ComparisonOp)
    ensures
        spec_alert_rule(pairs) matches Ok(rule) ==> {
            &&& (spec_find_pair(pairs, "op"@) matches Some(v) && op_names(op).contains(v)) ==> rule.op == op
            &&& (spec_find_pair(pairs, "op"@) matches Some(v) && forall|o: ComparisonOp|
                !(#[trigger] op_names(o)).contains(v)) ==> rule.op == ComparisonOp::Greater
            &&& spec_find_pair(pairs, "op"@) is None ==> rule.op == ComparisonOp::Greater
        },
{
    match spec_find_pair(pairs, "op"@) {
        Some(v) => comparison_names_law(v, op),
        None => {},
    }
}

/// A route leg runs from its `from` (else `origin`) value to its `to` (else
/// `destination`) value, `UNKNOWN` where neither is given, and its distance
/// is its `distance` (else `meters`) value, 0 when neither is given.
pub proof fn route_leg_endpoints(pairs: Seq<(Seq<char>, Seq<char>)>)
    ensures
        spec_route_leg(pairs) matches Ok(leg) ==> {
            &&& leg.origin == match spec_find_pair(pairs, "from"@) {
                Some(v) => v,
                None => match spec_find_pair(pairs, "origin"@) {
                    Some(v) => v,
                    None => "UNKNOWN"@,
                },
            }
            &&& leg.destination == match spec_find_pair(pairs, "to"@) {
                Some(v) => v,
                None => match spec_find_pair(pairs, "destination"@) {
                    Some(v) => v,
                    None => "UNKNOWN"@,
                },
            }
            &&& leg.distance_m == match spec_find_pair(pairs, "distance"@) {
                Some(v) => u32_or_zero(v),
                None => match spec_find_pair(pairs, "meters"@) {
                    Some(v) => u32_or_zero(v),
                    None => 0,
                },
            }
        },
{
}

} // verus!
