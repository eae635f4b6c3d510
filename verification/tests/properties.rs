use ironfleet::archive::{sniff_format, InputFormat};
use ironfleet::error::{Diagnostics, IronfleetError, Severity};
use ironfleet::model::{DecodeReport, Endpoint, TransportProto};
use ironfleet::reader::ByteReader;
use ironfleet::replay_session_tape;
use ironfleet::text::{clean_token, parse_u32};

#[test]
fn trimming_twice_changes_nothing() {
    for s in [" ,a=b;", "x", "", ";;", "  k = v  "] {
        let once = clean_token(s);
        assert_eq!(clean_token(once), once);
    }
}

#[test]
fn severity_names_read_back() {
    for s in [Severity::Info, Severity::Low, Severity::Medium, Severity::High, Severity::Critical] {
        assert_eq!(Severity::parse(s.as_str()), Some(s));
    }
}

#[test]
fn protocol_names_read_back() {
    for p in [TransportProto::Tcp, TransportProto::Udp, TransportProto::Can, TransportProto::Mqtt] {
        assert_eq!(TransportProto::parse(p.as_str()), p);
    }
}

#[test]
fn highest_is_the_maximum_severity() {
    let mut d = Diagnostics::new();
    d.push(IronfleetError::low("a"));
    d.push(IronfleetError::critical("b"));
    d.push(IronfleetError::medium("c"));
    assert_eq!(d.highest(), Some(Severity::Critical));
}

#[test]
fn merging_into_an_empty_report_copies_it() {
    let mut r = DecodeReport::default();
    r.sensor_count = 4;
    r.checksum = 0xDEAD_BEEF;
    r.diagnostics.push(IronfleetError::info("x"));
    let mut acc = DecodeReport::default();
    acc.merge(r.clone());
    assert_eq!(acc.sensor_count, 4);
    assert_eq!(acc.checksum, 0xDEAD_BEEF);
    assert_eq!(acc.diagnostics, r.diagnostics);
}

#[test]
fn consecutive_reads_equal_one_read() {
    let data = [0u8; 8];
    let mut a = ByteReader::new(&data);
    a.take(2).unwrap();
    a.take(3).unwrap();
    let mut b = ByteReader::new(&data);
    b.take(5).unwrap();
    assert_eq!(a.position(), b.position());
    let mut c = ByteReader::new(&data);
    c.take(6).unwrap();
    assert!(c.take(3).is_err());
    assert!(ByteReader::new(&data).take(9).is_err());
}

#[test]
fn decimal_text_reads_back() {
    for n in [0u32, 7, 10, 65535, u32::MAX] {
        assert_eq!(parse_u32(&n.to_string()).unwrap(), n);
    }
}

#[test]
fn endpoints_read_back_from_their_rendering() {
    for (host, port) in [("10.0.0.1", 8080u16), ("a:b", 0), ("", 65535)] {
        let e = Endpoint { host: host.to_string(), port };
        assert_eq!(Endpoint::parse(&e.render()), e);
    }
}

#[test]
fn open_flow_ids_stay_distinct() {
    let report = replay_session_tape(b"config retain=no\nflow id=1\nflow id=1\nclose id=1\nflow id=1\n").unwrap();
    assert_eq!(report.flows.len(), 1);
    assert_eq!(report.diagnostics.len(), 1);
}

#[test]
fn replayed_flows_are_sorted_and_complete() {
    let report = replay_session_tape(b"flow id=9\nflow id=3\nclose id=9\nflow id=7\nflow id=1\n").unwrap();
    let ids: Vec<u32> = report.flows.iter().map(|f| f.id).collect();
    assert_eq!(ids, vec![1, 3, 7, 9]);
    assert!(report.flows[3].closed);
}

fn encode(kind: u8, flags: u8, sequence: u32, payload: &[u8]) -> Vec<u8> {
    let mut out = vec![b'I', b'F', kind, flags];
    out.extend_from_slice(&sequence.to_le_bytes());
    out.extend_from_slice(&(payload.len() as u16).to_le_bytes());
    out.extend_from_slice(payload);
    out.extend_from_slice(&ironfleet::checksum::crc16_x25(payload).to_le_bytes());
    out
}

#[test]
fn encoded_frames_decode_back() {
    let mut data = encode(2, 9, 0x0102_0304, b"route");
    data.extend(encode(0x77, 0, 1, b""));
    data.extend(encode(5, 1, u32::MAX, &[0u8; 300]));
    let frames = ironfleet::decode_frame_stream(&data).unwrap();
    assert_eq!(frames.len(), 3);
    assert_eq!(frames[0].kind, ironfleet::FrameKind::Route);
    assert_eq!(frames[0].flags, 9);
    assert_eq!(frames[0].sequence, 0x0102_0304);
    assert_eq!(frames[0].payload, b"route".to_vec());
    assert_eq!(frames[1].kind, ironfleet::FrameKind::Unknown(0x77));
    assert!(frames[1].payload.is_empty());
    assert_eq!(frames[2].sequence, u32::MAX);
    assert_eq!(frames[2].payload.len(), 300);
    assert!(frames.iter().all(|f| f.checksum_valid));
    assert_eq!(frames[0].routing_tag, ironfleet::checksum::rolling_tag(0x0102_0304, b"route"));
}

#[test]
fn hex_fields_have_half_as_many_bytes_as_digits() {
    assert_eq!(ironfleet::text::hex_to_bytes("0a:1B-2c_3 4,5").unwrap().len(), (9 + 1) / 2);
    assert_eq!(ironfleet::text::hex_to_bytes("abcdef").unwrap().len(), 3);
    let bytes: Vec<u8> = (0u8..=255).collect();
    let text: String = bytes.iter().map(|b| format!("{:02x}", b)).collect();
    assert_eq!(ironfleet::text::hex_to_bytes(&text).unwrap(), bytes);
    assert!(ironfleet::text::hex_to_bytes("12;34").is_err());
}

#[test]
fn replay_reports_distinct_open_ids_and_kept_closed_flows() {
    let report = replay_session_tape(b"flow id=4\nclose id=4\nflow id=4\nflow id=4\nflow id=2\n").unwrap();
    let open: Vec<u32> = report.flows.iter().filter(|f| !f.closed).map(|f| f.id).collect();
    let closed = report.flows.iter().filter(|f| f.closed).count();
    assert_eq!(open, vec![2, 4]);
    assert_eq!(closed, 1);
    assert_eq!(report.flows.len(), 3);
}

#[test]
fn formats_are_sniffed_in_order() {
    assert_eq!(sniff_format(b"IFTL/1\nflow id=1\n"), InputFormat::Archive);
    assert_eq!(sniff_format(b"route x\nflow y"), InputFormat::Tape);
    assert_eq!(sniff_format(b"x waypoint y alert z"), InputFormat::Manifest);
    assert_eq!(sniff_format(b"alert z"), InputFormat::Program);
    assert_eq!(sniff_format(b"IF"), InputFormat::Stream);
}

#[test]
fn book_reports_copy_counts_and_score() {
    let book = ironfleet::parse_route_manifest(b"route id=R1 from=A to=B distance=5\nwaypoint route=R1 index=4\n").unwrap();
    let report = ironfleet::archive::book_report(book);
    assert_eq!(report.route_count, 1);
    assert_eq!(report.waypoint_count, 1);
    assert_eq!(report.checksum, 0x276F_4A03);
    assert!(report.diagnostics.is_empty());
}
