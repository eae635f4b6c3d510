//! Telemetry frames: the binary `IF` framing with CRC-16/X-25 trailers, and
//! the line form in which each record line of a text tape is one frame.
use vstd::prelude::*;
use vstd::utf8::encode_utf8;
use vstd::slice::slice_to_vec;
use crate::checksum::{ascii_score, crc16_x25, rolling_tag, spec_ascii_score, spec_crc16_x25, tag_acc};
use crate::error::{IronfleetError, ErrorView, diag, Severity, Result};
use crate::reader::{ByteReader, ReaderView, take_end, le16, le32};
use crate::strings::{span_starts_with, string_of, starts_with};
use crate::text::{trim, line_at, next_line, lemma_line_end, line_bounds, trim_span, Trim, lossy_utf8, lossy_raw_chars};

verus! {

#[derive(Debug, Clone, Copy, PartialEq, Eq, Structural)]
pub enum FrameKind {
    Metadata,
    Route,
    Sensor,
    Alert,
    Session,
    Unknown(u8),
}

impl FrameKind {
    pub open spec fn of_byte(byte: u8) -> FrameKind {
        if byte == 1 {
            FrameKind::Metadata
        } else if byte == 2 {
            FrameKind::Route
        } else if byte == 3 {
            FrameKind::Sensor
        } else if byte == 4 {
            FrameKind::Alert
        } else if byte == 5 {
            FrameKind::Session
        } else {
            FrameKind::Unknown(byte)
        }
    }

    pub fn from_byte(byte: u8) -> (r: Self)
        ensures
            r == Self::of_byte(byte),
    {
        match byte {
            1 => FrameKind::Metadata,
            2 => FrameKind::Route,
            3 => FrameKind::Sensor,
            4 => FrameKind::Alert,
            5 => FrameKind::Session,
            other => FrameKind::Unknown(other),
        }
    }

    pub open spec fn spec_name(self) -> Seq<char> {
        match self {
            FrameKind::Metadata => "metadata"@,
            FrameKind::Route => "route"@,
            FrameKind::Sensor => "sensor"@,
            FrameKind::Alert => "alert"@,
            FrameKind::Session => "session"@,
            FrameKind::Unknown(_) => "unknown"@,
        }
    }

    pub fn name(self) -> (r: &'static str)
        ensures
            r@ == self.spec_name(),
    {
        match self {
            FrameKind::Metadata => "metadata",
            FrameKind::Route => "route",
            FrameKind::Sensor => "sensor",
            FrameKind::Alert => "alert",
            FrameKind::Session => "session",
            FrameKind::Unknown(_) => "unknown",
        }
    }
}

#[derive(Debug, Clone, PartialEq, Eq)]
pub struct Frame {
    pub kind: FrameKind,
    pub flags: u8,
    pub sequence: u32,
    pub payload: Vec<u8>,
    pub checksum_valid: bool,
    pub ascii_score: u8,
    pub routing_tag: u32,
}

pub struct FrameView {
    pub kind: FrameKind,
    pub flags: u8,
    pub sequence: u32,
    pub payload: Seq<u8>,
    pub checksum_valid: bool,
    pub ascii_score: u8,
    pub routing_tag: u32,
}

impl View for Frame {
    type V = FrameView;

    open spec fn view(&self) -> FrameView {
        FrameView {
            kind: self.kind,
            flags: self.flags,
            sequence: self.sequence,
            payload: self.payload@,
            checksum_valid: self.checksum_valid,
            ascii_score: self.ascii_score,
            routing_tag: self.routing_tag,
        }
    }
}

pub open spec fn frames_view(v: Seq<Frame>) -> Seq<FrameView> {
    v.map_values(|f: Frame| f@)
}

/// A frame with its score and routing tag computed from the payload.
pub open spec fn make_frame(
    kind: FrameKind,
    flags: u8,
    sequence: u32,
    payload: Seq<u8>,
    checksum_valid: bool,
) -> FrameView {
    FrameView {
        kind,
        flags,
        sequence,
        payload,
        checksum_valid,
        ascii_score: spec_ascii_score(payload),
        routing_tag: tag_acc(sequence, payload),
    }
}

fn new_frame(kind: FrameKind, flags: u8, sequence: u32, payload: Vec<u8>, checksum_valid: bool) -> (r: Frame)
    ensures
        r@ == make_frame(kind, flags, sequence, payload@, checksum_valid),
{
    let score = ascii_score(&payload);
    let tag = rolling_tag(sequence, &payload);
    Frame { kind, flags, sequence, ascii_score: score, routing_tag: tag, checksum_valid, payload }
}

// ---------------------------------------------------------------------------
// Binary frames
// ---------------------------------------------------------------------------

/// The binary frame at `pos` (which has at least 10 bytes after it) and the
/// position after it, or the error that reading it raises.
pub open spec fn binary_frame_at(data: Seq<u8>, pos: nat) -> core::result::Result<(FrameView, nat), ErrorView> {
    if !(data[pos as int] == 73 && data[pos as int + 1] == 70) {
        Err(diag(Severity::Medium, "frame sync mismatch"@).at(pos as usize))
    } else {
        let kind = FrameKind::of_byte(data[pos as int + 2]);
        let flags = data[pos as int + 3];
        let sequence = le32(data, pos as int + 4);
        let len = le16(data, pos as int + 8);
        let at_payload = ReaderView { data, pos: pos + 10 };
        match take_end(at_payload, len as nat) {
            Err(e) => Err(e),
            Ok(end) => match take_end(at_payload.with_pos(end), 2) {
                Err(e) => Err(e),
                Ok(next) => {
                    let payload = data.subrange(pos as int + 10, end as int);
                    Ok(
                        (
                            make_frame(kind, flags, sequence, payload, le16(data, end as int) == spec_crc16_x25(payload)),
                            next,
                        ),
                    )
                },
            },
        }
    }
}

/// The frames from `pos` on, after the frames `acc`: a stream ends exactly at
/// the end of the data and holds at most 4096 frames.
pub open spec fn binary_frames_from(data: Seq<u8>, pos: nat, acc: Seq<FrameView>) -> core::result::Result<
    Seq<FrameView>,
    ErrorView,
>
    decreases data.len() - pos,
{
    if pos + 10 <= data.len() {
        match binary_frame_at(data, pos) {
            Err(e) => Err(e),
            Ok((f, next)) => {
                if next <= pos {
                    Ok(acc)
                } else if acc.len() + 1 > 4096 {
                    Err(diag(Severity::Medium, "too many frames in stream"@))
                } else {
                    binary_frames_from(data, next, acc.push(f))
                }
            },
        }
    } else if pos < data.len() {
        Err(diag(Severity::Low, "trailing partial frame"@).at(pos as usize))
    } else {
        Ok(acc)
    }
}

pub open spec fn frames_result_view(r: core::result::Result<Vec<Frame>, IronfleetError>) -> core::result::Result<
    Seq<FrameView>,
    ErrorView,
> {
    match r {
        Ok(v) => Ok(frames_view(v@)),
        Err(e) => Err(e@),
    }
}

/// Reads the frame at the reader's position.
fn read_binary_frame(reader: &mut ByteReader) -> (r: Result<Frame>)
    requires
        old(reader)@.pos + 10 <= old(reader)@.data.len(),
    ensures
        final(reader)@.data == old(reader)@.data,
        match binary_frame_at(old(reader)@.data, old(reader)@.pos) {
            Err(e) => r is Err && r->Err_0@ == e,
            Ok((f, next)) => r is Ok && r->Ok_0@ == f && final(reader)@.pos == next,
        },
{
    let ghost data = reader@.data;
    let ghost pos = reader@.pos;
    let _total = reader.len();
    let sync = reader.take(2)?;
    if !(sync[0] == 73 && sync[1] == 70) {
        let p = reader.position();
        let at = if p >= 2 { p - 2 } else { 0 };
        return Err(IronfleetError::medium("frame sync mismatch").at(at));
    }
    let kind = FrameKind::from_byte(reader.take_u8()?);
    let flags = reader.take_u8()?;
    let sequence = reader.take_le_u32()?;
    let len = reader.take_le_u16()? as usize;
    let payload_slice = reader.take(len)?;
    let payload = slice_to_vec(payload_slice);
    let expected = reader.take_le_u16()?;
    let actual = crc16_x25(&payload);
    Ok(new_frame(kind, flags, sequence, payload, expected == actual))
}

fn decode_binary_frames(data: &[u8]) -> (r: Result<Vec<Frame>>)
    ensures
        frames_result_view(r) == binary_frames_from(data@, 0, Seq::empty()),
{
    let mut reader = ByteReader::new(data);
    let mut frames: Vec<Frame> = Vec::new();
    assert(frames_view(frames@) =~= Seq::<FrameView>::empty());
    while reader.remaining() >= 10
        invariant
            reader@.data == data@,
            frames@.len() <= 4096,
            binary_frames_from(data@, 0, Seq::empty()) == binary_frames_from(
                data@,
                reader@.pos,
                frames_view(frames@),
            ),
        decreases data@.len() - reader@.pos,
    {
        let ghost fv = frames_view(frames@);
        let frame = read_binary_frame(&mut reader)?;
        frames.push(frame);
        proof {
            assert(frames_view(frames@) =~= fv.push(frame@));
        }
        if frames.len() > 4096 {
            return Err(IronfleetError::medium("too many frames in stream"));
        }
    }
    if !reader.is_empty() {
        return Err(IronfleetError::low("trailing partial frame").at(reader.position()));
    }
    Ok(frames)
}

// ---------------------------------------------------------------------------
// Line frames
// ---------------------------------------------------------------------------

/// Lines that carry no frame: blank lines, comments and tape headers.
pub open spec fn frameless_line(l: Seq<char>) -> bool {
    l.len() == 0 || l[0] == '#' || starts_with(l, "IFTL/"@) || starts_with(l, "IFSS/"@)
}

/// The kind and flags of a record line, by its leading word.
pub open spec fn line_kind(l: Seq<char>) -> (FrameKind, u8) {
    if starts_with(l, "meta "@) {
        (FrameKind::Metadata, 0)
    } else if starts_with(l, "route "@) || starts_with(l, "waypoint "@) {
        (FrameKind::Route, 0)
    } else if starts_with(l, "sensor "@) {
        (FrameKind::Sensor, 0)
    } else if starts_with(l, "alert "@) {
        (FrameKind::Alert, 0)
    } else if starts_with(l, "flow "@) || starts_with(l, "data "@) || starts_with(l, "defer "@)
        || starts_with(l, "ack "@) || starts_with(l, "close "@) || starts_with(l, "inspect "@)
        || starts_with(l, "config "@) {
        (FrameKind::Session, 1)
    } else {
        (FrameKind::Unknown(0xff), 0)
    }
}

/// The frames of the lines of `t` from `pos` on; `idx` numbers the lines.
pub open spec fn line_frames_from(t: Seq<char>, pos: int, idx: nat) -> Seq<FrameView>
    decreases t.len() - pos,
{
    if pos < 0 || pos >= t.len() {
        Seq::empty()
    } else {
        proof {
            lemma_line_end(t, pos);
        }
        let l = trim(line_at(t, pos));
        let rest = line_frames_from(t, next_line(t, pos), idx + 1);
        if frameless_line(l) {
            rest
        } else {
            let (kind, flags) = line_kind(l);
            seq![make_frame(kind, flags, idx as u32, encode_utf8(l), true)] + rest
        }
    }
}

fn line_kind_of(t: &[char], a: usize, b: usize) -> (r: (FrameKind, u8))
    requires
        a <= b <= t@.len(),
    ensures
        r == line_kind(t@.subrange(a as int, b as int)),
{
    if span_starts_with(t, a, b, "meta ") {
        (FrameKind::Metadata, 0)
    } else if span_starts_with(t, a, b, "route ") || span_starts_with(t, a, b, "waypoint ") {
        (FrameKind::Route, 0)
    } else if span_starts_with(t, a, b, "sensor ") {
        (FrameKind::Sensor, 0)
    } else if span_starts_with(t, a, b, "alert ") {
        (FrameKind::Alert, 0)
    } else if span_starts_with(t, a, b, "flow ") || span_starts_with(t, a, b, "data ")
        || span_starts_with(t, a, b, "defer ") || span_starts_with(t, a, b, "ack ")
        || span_starts_with(t, a, b, "close ") || span_starts_with(t, a, b, "inspect ")
        || span_starts_with(t, a, b, "config ") {
        (FrameKind::Session, 1)
    } else {
        (FrameKind::Unknown(0xff), 0)
    }
}

fn decode_line_frames(data: &[u8]) -> (r: Vec<Frame>)
    ensures
        frames_view(r@) == line_frames_from(lossy_utf8(data@), 0, 0),
{
    let t = lossy_raw_chars(data);
    let mut frames: Vec<Frame> = Vec::new();
    let mut pos: usize = 0;
    let mut idx: usize = 0;
    assert(frames_view(frames@) + line_frames_from(t@, 0, 0) =~= line_frames_from(t@, 0, 0));
    while pos < t.len()
        invariant
            t@ == lossy_utf8(data@),
            pos <= t@.len(),
            idx <= pos,
            line_frames_from(t@, 0, 0) == frames_view(frames@) + line_frames_from(t@, pos as int, idx as nat),
        decreases t@.len() - pos,
    {
        let (lo, hi, next) = line_bounds(&t, pos);
        let (a, b) = trim_span(&t, lo, hi, Trim::Space);
        let ghost l = t@.subrange(a as int, b as int);
        let ghost fv = frames_view(frames@);
        if a == b || t[a] == '#' || span_starts_with(&t, a, b, "IFTL/") || span_starts_with(&t, a, b, "IFSS/") {
            assert(frameless_line(l));
        } else {
            assert(!frameless_line(l));
            let kind_flags = line_kind_of(&t, a, b);
            let line = string_of(&t, a, b);
            let payload = slice_to_vec(line.as_str().as_bytes());
            let frame = new_frame(kind_flags.0, kind_flags.1, idx as u32, payload, true);
            frames.push(frame);
            proof {
                assert(frames_view(frames@) =~= fv.push(frame@));
                assert(fv.push(frame@) + line_frames_from(t@, next as int, (idx + 1) as nat) =~= fv + (seq![frame@]
                    + line_frames_from(t@, next as int, (idx + 1) as nat)));
            }
        }
        pos = next;
        idx += 1;
    }
    assert(frames_view(frames@) + Seq::<FrameView>::empty() =~= frames_view(frames@));
    frames
}

// ---------------------------------------------------------------------------
// Streams
// ---------------------------------------------------------------------------

pub open spec fn has_prefix(data: Seq<u8>, p: Seq<u8>) -> bool {
    p.len() <= data.len() && data.subrange(0, p.len() as int) == p
}

/// `IFTL/`, the archive header's first bytes.
pub open spec fn archive_magic() -> Seq<u8> {
    seq![73u8, 70u8, 84u8, 76u8, 47u8]
}

/// `IFSS/`, the session tape header's first bytes.
pub open spec fn session_magic() -> Seq<u8> {
    seq![73u8, 70u8, 83u8, 83u8, 47u8]
}

/// Whether `data` starts with the given bytes.
pub fn bytes_start_with(data: &[u8], p: &[u8]) -> (r: bool)
    ensures
        r == has_prefix(data@, p@),
{
    if p.len() > data.len() {
        return false;
    }
    let mut i: usize = 0;
    while i < p.len()
        invariant
            p@.len() <= data@.len(),
            i <= p@.len(),
            forall|j: int| 0 <= j < i ==> data@[j] == p@[j],
        decreases p@.len() - i,
    {
        if data[i] != p[i] {
            assert(data@.subrange(0, p@.len() as int)[i as int] != p@[i as int]);
            return false;
        }
        i += 1;
    }
    assert(data@.subrange(0, p@.len() as int) =~= p@);
    true
}

/// The frames of a stream: a text tape (starting `IFTL/` or `IFSS/`) is read
/// line by line, anything else as binary frames.
pub open spec fn spec_frame_stream(data: Seq<u8>) -> core::result::Result<Seq<FrameView>, ErrorView> {
    if has_prefix(data, archive_magic()) || has_prefix(data, session_magic()) {
        Ok(line_frames_from(lossy_utf8(data), 0, 0))
    } else {
        binary_frames_from(data, 0, Seq::empty())
    }
}

pub fn decode_frame_stream(data: &[u8]) -> (r: Result<Vec<Frame>>)
    ensures
        frames_result_view(r) == spec_frame_stream(data@),
{
    let tl: [u8; 5] = [73, 70, 84, 76, 47];
    let ss: [u8; 5] = [73, 70, 83, 83, 47];
    assert(tl@ =~= archive_magic());
    assert(ss@ =~= session_magic());
    if bytes_start_with(data, &tl) || bytes_start_with(data, &ss) {
        return Ok(decode_line_frames(data));
    }
    decode_binary_frames(data)
}

} // verus!
