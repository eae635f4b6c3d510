use ironfleet::checksum::{ascii_score, crc16_x25, rolling_tag};
use ironfleet::error::{Diagnostics, IronfleetError, Severity};
use ironfleet::model::{ComparisonOp, DecodeReport, Endpoint, TransportProto};
use ironfleet::reader::{bounded_slice, ByteReader};
use ironfleet::text::{
    as_lossy_text, clean_token, find_pair, hex_to_bytes, parse_bool, parse_i64, parse_pairs, parse_u32,
    split_record, unquote,
};

#[test]
fn crc16_check_value() {
    assert_eq!(crc16_x25(b"123456789"), 0x906E);
    assert_eq!(crc16_x25(b""), 0x0000);
    assert_eq!(crc16_x25(b"AB"), 0x31EF);
}

#[test]
fn rolling_tag_values() {
    assert_eq!(rolling_tag(0, b""), 0x9E37_79B9);
    assert_eq!(rolling_tag(1, b"A"), 0xDD2A_5AE8);
    assert_eq!(rolling_tag(7, b"hello"), 0x249C_8C6F);
}

#[test]
fn ascii_score_counts_printable_share() {
    assert_eq!(ascii_score(b""), 0);
    assert_eq!(ascii_score(b"abc"), 100);
    assert_eq!(ascii_score(b"ab\x00\x01"), 50);
    assert_eq!(ascii_score(b"a\x00\x00"), 33);
}

#[test]
fn lossy_text_replaces_invalid_bytes_and_nul() {
    assert_eq!(as_lossy_text(&[0x61, 0xff, 0x00, 0x62]), "a\u{fffd} b");
    assert_eq!(as_lossy_text("żółw".as_bytes()), "żółw");
}

#[test]
fn tokens_and_records() {
    assert_eq!(clean_token(" ,key=v;\t"), "key=v");
    assert_eq!(split_record("  meta a=1 b=2 "), Some(("meta", "a=1 b=2")));
    assert_eq!(split_record("route"), Some(("route", "")));
    assert_eq!(split_record("# comment"), None);
    assert_eq!(split_record("   "), None);
}

#[test]
fn pairs_are_split_and_found_ignoring_case() {
    let pairs = parse_pairs("a=1, B=\"two\" lone c==3");
    assert_eq!(pairs, vec![("a", "1"), ("B", "two"), ("c", "=3")]);
    assert_eq!(find_pair(&pairs, "A"), Some("1"));
    assert_eq!(find_pair(&pairs, "b"), Some("two"));
    assert_eq!(find_pair(&pairs, "lone"), None);
}

#[test]
fn unsigned_integers() {
    assert_eq!(parse_u32(" 12 ").unwrap(), 12);
    assert_eq!(parse_u32("+7").unwrap(), 7);
    assert_eq!(parse_u32("0x1F").unwrap(), 31);
    assert_eq!(parse_u32("4294967295").unwrap(), u32::MAX);
    let err = parse_u32("4294967296").unwrap_err();
    assert_eq!(err.message, "invalid integer");
    assert_eq!(err.severity, Severity::Medium);
    assert_eq!(parse_u32("0xZZ").unwrap_err().message, "invalid hex integer");
    assert_eq!(parse_u32("").unwrap_err().message, "invalid integer");
}

#[test]
fn signed_integers_and_flags() {
    assert_eq!(parse_i64("-42").unwrap(), -42);
    assert_eq!(parse_i64(" 9223372036854775807 ").unwrap(), i64::MAX);
    assert_eq!(parse_i64("-9223372036854775808").unwrap(), i64::MIN);
    assert_eq!(parse_i64("abc").unwrap_err().message, "invalid signed integer");
    assert!(parse_bool(" Yes "));
    assert!(parse_bool("DEEP"));
    assert!(!parse_bool("no"));
}

#[test]
fn hex_bytes() {
    assert_eq!(hex_to_bytes("41:42").unwrap(), vec![0x41, 0x42]);
    assert_eq!(hex_to_bytes("a-B_c").unwrap(), vec![0xab, 0xc0]);
    assert_eq!(hex_to_bytes("").unwrap(), Vec::<u8>::new());
    let err = hex_to_bytes("4g").unwrap_err();
    assert_eq!(err.message, "non-hex digit in byte field");
    assert_eq!(err.severity, Severity::Medium);
}

#[test]
fn unquote_handles_escapes() {
    assert_eq!(unquote("\"a\\nb\""), "a\nb");
    assert_eq!(unquote("x\\qy\\\\"), "xqy\\");
    assert_eq!(unquote("plain"), "plain");
}

#[test]
fn severities_parse_with_aliases() {
    assert_eq!(Severity::parse(" HIGH "), Some(Severity::High));
    assert_eq!(Severity::parse("crit"), Some(Severity::Critical));
    assert_eq!(Severity::parse("note"), Some(Severity::Info));
    assert_eq!(Severity::parse("bogus"), None);
    assert_eq!(Severity::Medium.as_str(), "medium");
    assert!(Severity::Info < Severity::Critical);
}

#[test]
fn errors_render_every_form() {
    let e = IronfleetError::medium("truncated input");
    assert_eq!(e.to_string(), "medium: truncated input");
    let e = e.at(4);
    assert_eq!(e.to_string(), "medium at 4: truncated input");
    let e = e.with_context("need 2".to_string());
    assert_eq!(e.to_string(), "medium at 4: truncated input (need 2)");
    let e = IronfleetError::new(Severity::Info, "x").with_context("ctx".to_string());
    assert_eq!(e.to_string(), "info: x (ctx)");
    assert_eq!(IronfleetError::critical("c").severity, Severity::Critical);
    assert_eq!(IronfleetError::high("h").severity, Severity::High);
    assert_eq!(IronfleetError::low("l").severity, Severity::Low);
    assert_eq!(IronfleetError::info("i").offset, None);
}

#[test]
fn diagnostics_collect_in_order() {
    let mut d = Diagnostics::new();
    assert!(d.is_empty());
    assert_eq!(d.highest(), None);
    d.push(IronfleetError::low("a"));
    d.extend(vec![IronfleetError::critical("b"), IronfleetError::medium("c").at(2)]);
    assert_eq!(d.len(), 3);
    assert_eq!(d.highest(), Some(Severity::Critical));
    assert_eq!(d.render_lines(), vec!["low: a".to_string(), "critical: b".to_string(), "medium at 2: c".to_string()]);
    assert_eq!(d.iter().len(), 3);
    let v = d.into_vec();
    assert_eq!(v[1].message, "b");
}

#[test]
fn reader_reads_and_refuses_short_input() {
    let data = [1u8, 2, 3, 4, 5, 6, 7, 8, 9];
    let mut r = ByteReader::new(&data);
    assert_eq!(r.len(), 9);
    assert_eq!(r.take_u8().unwrap(), 1);
    assert_eq!(r.take_le_u16().unwrap(), 0x0302);
    assert_eq!(r.take_be_u16().unwrap(), 0x0405);
    assert_eq!(r.peek(2).unwrap(), &[6, 7]);
    assert_eq!(r.position(), 5);
    let err = r.take(5).unwrap_err();
    assert_eq!(err.message, "truncated input");
    assert_eq!(err.offset, Some(5));
    assert_eq!(err.context.as_deref(), Some("need 5 bytes, have 4"));
    assert_eq!(r.position(), 5);
    assert_eq!(r.peek(5).unwrap_err().context, None);
    assert_eq!(r.take_le_u32().unwrap(), 0x0908_0706);
    assert!(r.is_empty());
    assert_eq!(r.remaining(), 0);
    r.set_position(0).unwrap();
    assert_eq!(r.take_be_u32().unwrap(), 0x0102_0304);
    r.skip(1).unwrap();
    assert_eq!(r.take_rest(), &[6, 7, 8, 9]);
    let err = r.set_position(10).unwrap_err();
    assert_eq!(err.message, "reader seek outside input");
    assert_eq!(err.offset, Some(10));
    assert_eq!(r.original(), &data);
    assert_eq!(r.take(usize::MAX).unwrap_err().message, "reader offset overflow");
}

#[test]
fn reader_varints_and_lines() {
    let data = [0x96u8, 0x01, 0x05];
    let mut r = ByteReader::new(&data);
    assert_eq!(r.take_varint().unwrap(), 150);
    assert_eq!(r.take_varint().unwrap(), 5);
    assert_eq!(r.take_varint().unwrap_err().message, "truncated input");
    let long = [0xffu8; 12];
    let mut r = ByteReader::new(&long);
    let err = r.take_varint().unwrap_err();
    assert_eq!(err.message, "varint exceeds 10 bytes");
    assert_eq!(err.offset, Some(10));
    let text = b"ab\r\ncd\n\nlast";
    let mut r = ByteReader::new(text);
    assert_eq!(r.take_line(), Some((0, &b"ab"[..])));
    assert_eq!(r.take_line(), Some((4, &b"cd"[..])));
    assert_eq!(r.take_line(), Some((7, &b""[..])));
    assert_eq!(r.take_line(), Some((8, &b"last"[..])));
    assert_eq!(r.take_line(), None);
}

#[test]
fn bounded_slices() {
    let data = [1u8, 2, 3];
    assert_eq!(bounded_slice(&data, 1, 2).unwrap(), &[2, 3]);
    let err = bounded_slice(&data, 2, 2).unwrap_err();
    assert_eq!(err.message, "slice outside input");
    assert_eq!(err.offset, Some(2));
    assert_eq!(bounded_slice(&data, usize::MAX, 1).unwrap_err().message, "slice offset overflow");
}

#[test]
fn protocols_endpoints_and_operators() {
    assert_eq!(TransportProto::parse("TCP"), TransportProto::Tcp);
    assert_eq!(TransportProto::parse("Zigbee"), TransportProto::Unknown("zigbee".to_string()));
    assert_eq!(TransportProto::parse("Zigbee").as_str(), "zigbee");
    let e = Endpoint::parse("10.0.0.1:8080");
    assert_eq!(e.host, "10.0.0.1");
    assert_eq!(e.port, 8080);
    assert_eq!(Endpoint::parse("host").port, 0);
    assert_eq!(Endpoint::parse("host:99999").port, 0);
    assert_eq!(Endpoint::parse("[::1]:53").host, "[::1]");
    assert_eq!(e.render(), "10.0.0.1:8080");
    assert_eq!(ComparisonOp::parse("ge"), Some(ComparisonOp::GreaterEqual));
    assert_eq!(ComparisonOp::parse("=="), Some(ComparisonOp::Equal));
    assert_eq!(ComparisonOp::parse("has"), Some(ComparisonOp::Contains));
    assert_eq!(ComparisonOp::parse("~"), None);
}

#[test]
fn reports_merge_counts_and_checksums() {
    let mut a = DecodeReport::default();
    a.route_count = 2;
    a.checksum = 1;
    a.diagnostics.push(IronfleetError::low("a"));
    let mut b = DecodeReport::default();
    b.route_count = 3;
    b.flow_count = 1;
    b.checksum = 0x10;
    b.diagnostics.push(IronfleetError::info("b"));
    a.merge(b);
    assert_eq!(a.route_count, 5);
    assert_eq!(a.flow_count, 1);
    assert_eq!(a.checksum, (1u32 << 5) ^ 0x10);
    assert_eq!(a.diagnostics.len(), 2);
    assert_eq!(a.diagnostics[1].message, "b");
}
