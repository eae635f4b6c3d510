use ironfleet::error::Severity;
use ironfleet::frame::FrameKind;
use ironfleet::route::parse_waypoint_line;
use ironfleet::alert::{parse_alert_line, parse_sensor_line};
use ironfleet::model::ComparisonOp;
use ironfleet::{analyze_bytes, decode_any, decode_archive, decode_frame_stream, parse_alert_program,
    parse_route_manifest, replay_session_tape};

fn binary_frame() -> Vec<u8> {
    // sync, kind 1, flags 0, sequence 7, length 2, payload "AB", CRC-16/X.25 of "AB"
    vec![b'I', b'F', 1, 0, 7, 0, 0, 0, 2, 0, b'A', b'B', 0xEF, 0x31]
}

#[test]
fn binary_frames_decode_with_checksums() {
    let frames = decode_frame_stream(&binary_frame()).unwrap();
    assert_eq!(frames.len(), 1);
    let f = &frames[0];
    assert_eq!(f.kind, FrameKind::Metadata);
    assert_eq!(f.sequence, 7);
    assert_eq!(f.payload, b"AB".to_vec());
    assert!(f.checksum_valid);
    assert_eq!(f.ascii_score, 100);
    assert_eq!(f.routing_tag, 0x928A_722E);
    let mut bad = binary_frame();
    bad[12] = 0;
    assert!(!decode_frame_stream(&bad).unwrap()[0].checksum_valid);
}

#[test]
fn binary_frame_errors() {
    let mut wrong_sync = binary_frame();
    wrong_sync[0] = b'X';
    let err = decode_frame_stream(&wrong_sync).unwrap_err();
    assert_eq!(err.message, "frame sync mismatch");
    assert_eq!(err.offset, Some(0));
    let mut trailing = binary_frame();
    trailing.push(0);
    let err = decode_frame_stream(&trailing).unwrap_err();
    assert_eq!(err.message, "trailing partial frame");
    assert_eq!(err.severity, Severity::Low);
    assert_eq!(err.offset, Some(14));
    let mut short = binary_frame();
    short[8] = 200;
    assert_eq!(decode_frame_stream(&short).unwrap_err().message, "truncated input");
    assert_eq!(decode_frame_stream(b"").unwrap().len(), 0);
}

#[test]
fn line_frames_classify_records() {
    let frames = decode_frame_stream(b"IFSS/1\nflow id=1\n  \nwhat now\nmeta a=b\n").unwrap();
    assert_eq!(frames.len(), 3);
    assert_eq!(frames[0].kind, FrameKind::Session);
    assert_eq!(frames[0].flags, 1);
    assert_eq!(frames[0].sequence, 1);
    assert_eq!(frames[1].kind, FrameKind::Unknown(0xff));
    assert_eq!(frames[1].sequence, 3);
    assert_eq!(frames[2].kind, FrameKind::Metadata);
    assert_eq!(frames[2].payload, b"meta a=b".to_vec());
    assert_eq!(FrameKind::from_byte(9), FrameKind::Unknown(9));
    assert_eq!(FrameKind::from_byte(5).name(), "session");
    assert_eq!(FrameKind::Unknown(3).name(), "unknown");
}

#[test]
fn session_flows_are_reported_by_id() {
    let report = replay_session_tape(b"IFSS/1\nflow id=5\nflow 2\nflow id=2\n").unwrap();
    let ids: Vec<u32> = report.flows.iter().map(|f| f.id).collect();
    assert_eq!(ids, vec![2, 5]);
    assert!(report.flows.iter().all(|f| !f.closed));
    assert_eq!(report.diagnostics.len(), 1);
    let d = &report.diagnostics.iter()[0];
    assert_eq!(d.message, "flow reopened before close");
    assert_eq!(d.context.as_deref(), Some("2"));
}

#[test]
fn session_data_defer_and_close() {
    let report = replay_session_tape(b"flow id=1\ndefer id=1 seq=1 data=4142\ndata id=1 seq=2 hex=43\nclose id=1\n").unwrap();
    assert_eq!(report.flows.len(), 1);
    let f = report.flows[0];
    assert!(f.closed);
    assert_eq!(f.chunks, 2);
    assert_eq!(f.bytes, 3);
    assert_eq!(f.deferred, 1);
    assert_eq!(report.bytes_seen, 3);
    assert_eq!(report.deferred_segments, 1);
    assert!(report.diagnostics.is_empty());
}

#[test]
fn session_diagnostics() {
    let report = replay_session_tape(
        b"config retain=no inspect=yes\nflow id=1 proto=zigbee\ndata id=9 data=41\ndata id=1 data=4x\nack id=7\nclose id=1\ninspect id=1\nbogus\nsensor id=nope\n",
    )
    .unwrap();
    assert_eq!(report.flows.len(), 0);
    let msgs: Vec<&str> = report.diagnostics.iter().iter().map(|e| e.message.as_str()).collect();
    assert_eq!(
        msgs,
        vec![
            "flow uses unknown protocol profile",
            "data references missing flow",
            "non-hex digit in byte field",
            "ack references missing flow",
            "inspect found no deferred segments",
            "ignored session record",
            "session references unknown sensor",
        ]
    );
    assert_eq!(report.diagnostics.iter()[5].offset, Some(7));
}

#[test]
fn route_manifest_scores_and_checks() {
    let book = parse_route_manifest(b"route id=R1 from=A to=B distance=5\nwaypoint route=R1 index=4 lat=1.5 lon=-2\n").unwrap();
    assert_eq!(book.routes.len(), 1);
    assert_eq!(book.waypoints[0].lat, "1.5");
    assert_eq!(book.waypoints[0].lon, "-2");
    assert_eq!(book.score, 0x276F_4A03);
    assert!(book.diagnostics.is_empty());
    assert_eq!(book.route_for("R1").unwrap().distance_m, 5);
    assert!(book.route_for("R2").is_none());
    assert_eq!(book.waypoints_for("R1").len(), 1);

    let book = parse_route_manifest(b"route id=R9 from=A to=A distance=0 risk=95 tags=Fast|x\nsurprise\n").unwrap();
    assert_eq!(book.routes[0].tags, vec!["fast".to_string(), "x".to_string()]);
    let msgs: Vec<&str> = book.diagnostics.iter().iter().map(|e| e.message.as_str()).collect();
    assert_eq!(
        msgs,
        vec![
            "unhandled route manifest line",
            "route origin matches destination",
            "route has zero distance",
            "high-risk route lacks escort tag",
        ]
    );
    assert_eq!(book.diagnostics.highest(), Some(Severity::High));
    let err = parse_waypoint_line("lat=north").unwrap_err();
    assert_eq!(err.message, "invalid floating point value");
}

#[test]
fn alert_programs() {
    let program = parse_alert_program(
        b"alert id=A1 when=engine.rpm op=gt value=5000 severity=high for=90000\nalert id=A2 when=foo\nalert id=A3 value=abc\n",
    )
    .unwrap();
    assert_eq!(program.rules.len(), 2);
    let rule = &program.rules[0];
    assert_eq!(rule.op, ComparisonOp::Greater);
    assert_eq!(rule.threshold, "5000");
    assert_eq!(rule.severity, Severity::High);
    assert_eq!(rule.hold_seconds, 90000);
    let msgs: Vec<&str> = program.diagnostics.iter().iter().map(|e| e.message.as_str()).collect();
    assert_eq!(
        msgs,
        vec!["invalid floating point value", "alert hold period exceeds one day", "alert references unknown signal"]
    );
    assert_eq!(program.diagnostics.iter()[0].offset, Some(2));
    let defaults = parse_alert_line("").unwrap();
    assert_eq!(defaults.id, "alert-unknown");
    assert_eq!(defaults.signal, "unknown.signal");
    assert_eq!(defaults.op, ComparisonOp::Greater);
    assert_eq!(defaults.severity, Severity::Medium);
    let sample = parse_sensor_line("id=engine.temp value=91.5 unit=C ts=12 quality=250").unwrap();
    assert_eq!(sample.value, "91.5");
    assert_eq!(sample.timestamp, 12);
    assert_eq!(sample.quality, 100);
}

#[test]
fn archives_collect_every_record() {
    let doc = decode_archive(
        b"IFTL/1\nmeta fleet=\"demo\"\nsensor id=engine.rpm value=800\nalert id=A when=engine.rpm\nflow id=3\nbogus x=1\n",
    )
    .unwrap();
    assert_eq!(doc.metadata[0].key, "fleet");
    assert_eq!(doc.metadata[0].value, "demo");
    assert_eq!(doc.sensors.len(), 1);
    assert_eq!(doc.alerts.rules.len(), 1);
    assert_eq!(doc.sessions.len(), 1);
    assert_eq!(doc.sessions[0].flows[0].id, 3);
    assert_eq!(doc.diagnostics.len(), 1);
    let d = &doc.diagnostics.iter()[0];
    assert_eq!(d.message, "unknown archive record");
    assert_eq!(d.offset, Some(5));
    assert_eq!(d.context.as_deref(), Some("bogus"));
    let report = doc.report();
    assert_eq!(report.metadata_count, 1);
    assert_eq!(report.sensor_count, 1);
    assert_eq!(report.alert_count, 1);
    assert_eq!(report.flow_count, 1);
    assert_eq!(report.diagnostics.len(), 1);

    let headless = decode_archive(b"meta a=b\nxx\n").unwrap();
    assert_eq!(headless.diagnostics.iter()[0].message, "archive header not present");
    let empty_meta = decode_archive(b"IFTL/1\nmeta\n").unwrap();
    assert_eq!(empty_meta.diagnostics.iter()[0].message, "metadata record has no pairs");
}

#[test]
fn archive_frames_feed_the_session() {
    let doc = decode_archive(b"IFTL/1\nframe payload=IFSS/1\n").unwrap();
    assert!(doc.sessions.is_empty());
    let doc = decode_archive(b"IFTL/1\nframe payload=x\nflow id=4\n").unwrap();
    assert_eq!(doc.sessions[0].flows.len(), 1);
}

#[test]
fn decode_any_sniffs_each_format() {
    let r = decode_any(b"IFTL/1\nmeta a=b\n").unwrap();
    assert_eq!(r.metadata_count, 1);
    let r = decode_any(b"flow id=1\nflow id=2\n").unwrap();
    assert_eq!(r.flow_count, 2);
    let r = decode_any(b"route id=R1 from=A to=B distance=5\nwaypoint route=R1 index=4\n").unwrap();
    assert_eq!(r.route_count, 1);
    assert_eq!(r.waypoint_count, 1);
    assert_eq!(r.checksum, 0x276F_4A03);
    let r = decode_any(b"alert id=A when=engine.rpm\n").unwrap();
    assert_eq!(r.alert_count, 1);
    let r = decode_any(&binary_frame()).unwrap();
    assert_eq!(r.metadata_count, 1);
    assert_eq!(r.checksum, 0x928A_722E);
    assert!(r.diagnostics.is_empty());
    assert_eq!(decode_any(b"XX").unwrap_err().message, "trailing partial frame");
    assert_eq!(decode_any(b"0123456789").unwrap_err().message, "frame sync mismatch");
}

#[test]
fn analyze_collects_what_went_wrong() {
    let d = analyze_bytes(b"IFTL/1\nbogus\n");
    assert_eq!(d.len(), 1);
    assert_eq!(d.highest(), Some(Severity::Info));
    let d = analyze_bytes(b"0123456789");
    assert_eq!(d.len(), 1);
    assert_eq!(d.iter()[0].message, "frame sync mismatch");
    assert!(analyze_bytes(b"").is_empty());
}

#[test]
fn route_lines_and_digest() {
    let leg = ironfleet::route::parse_route_line("id=R4 origin=X destination=Y meters=0x10 risk=250 tags=Escort||b").unwrap();
    assert_eq!(leg.origin, "X");
    assert_eq!(leg.destination, "Y");
    assert_eq!(leg.distance_m, 16);
    assert_eq!(leg.risk, 100);
    assert_eq!(leg.tags, vec!["escort".to_string(), "b".to_string()]);
    let defaults = ironfleet::route::parse_route_line("").unwrap();
    assert_eq!(defaults.id, "route-unknown");
    assert_eq!(defaults.origin, "UNKNOWN");
    assert_eq!(ironfleet::route::parse_route_line("distance=far").unwrap_err().message, "invalid integer");

    let book = parse_route_manifest(b"route id=R1 distance=5 risk=2\nwaypoint index=4 dwell=1\n").unwrap();
    assert_eq!(book.score, 0x276F_4A03);
    assert_eq!(ironfleet::route::route_signal_digest(&book), 0xAD28_2CB0);
}

#[test]
fn text_decoders_take_characters() {
    let text: Vec<char> = "IFSS/1\nflow id=8\n\u{fffd} junk\n".chars().collect();
    let report = ironfleet::session::replay_session_text(&text).unwrap();
    assert_eq!(report.flows[0].id, 8);
    assert_eq!(report.diagnostics.iter()[0].context.as_deref(), Some("\u{fffd}"));
    let text: Vec<char> = "route id=R1 from=A to=B distance=5\n".chars().collect();
    assert_eq!(ironfleet::route::parse_route_text(&text).unwrap().routes.len(), 1);
    let text: Vec<char> = "alert id=A when=engine.rpm\n".chars().collect();
    assert_eq!(ironfleet::alert::parse_alert_text(&text).unwrap().rules.len(), 1);
    let text: Vec<char> = "meta a=b\n".chars().collect();
    let doc = ironfleet::archive::decode_archive_text(&text, 9).unwrap();
    assert_eq!(doc.diagnostics.iter()[0].message, "archive header not present");
    let doc = ironfleet::archive::decode_archive_text(&text, 8).unwrap();
    assert!(doc.diagnostics.is_empty());
}

#[test]
fn coordinate_checks_follow_the_given_flags() {
    let mut book = parse_route_manifest(b"waypoint route=R1 lat=100\nwaypoint route=R2\nwaypoint route=R3 lon=-200\n").unwrap();
    book.add_coordinate_checks(&[false, true, false]);
    let msgs: Vec<(&str, Option<&str>)> =
        book.diagnostics.iter().iter().map(|e| (e.message.as_str(), e.context.as_deref())).collect();
    assert_eq!(
        msgs,
        vec![
            ("waypoint coordinate outside range", Some("R1")),
            ("waypoint coordinate outside range", Some("R3")),
        ]
    );
    assert_eq!(book.diagnostics.highest(), Some(Severity::Medium));
}
