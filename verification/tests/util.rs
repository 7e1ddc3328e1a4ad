use corvid::config::Config;
use corvid::error::{Error, Kind};
use corvid::filter::{CmpOp, Filter, FilterField};
use corvid::flow::{FlowKey, FlowRecord};
use corvid::util::{crc32, fnv1a, ByteReader, ByteWriter, LogicalClock};

#[test]
fn crc32_check_value() {
    assert_eq!(crc32(b"123456789"), 0xCBF4_3926);
    assert_eq!(crc32(b""), 0);
}

#[test]
fn fnv1a_known_values() {
    assert_eq!(fnv1a(b""), 0xcbf2_9ce4_8422_2325);
    assert_eq!(fnv1a(b"a"), 0xaf63_dc4c_8601_ec8c);
}

#[test]
fn writer_reader_roundtrip() {
    let mut w = ByteWriter::new();
    w.u8(7);
    w.u16(0x1234);
    w.u32(0xdead_beef);
    w.i32(-5);
    w.u64(0x0102_0304_0506_0708);
    w.bytes(b"xy");
    assert_eq!(w.len(), 1 + 2 + 4 + 4 + 8 + 2);
    let v = w.into_vec();
    let mut r = ByteReader::new(&v);
    assert_eq!(r.u8().unwrap(), 7);
    assert_eq!(r.u16().unwrap(), 0x1234);
    assert_eq!(r.u32().unwrap(), 0xdead_beef);
    assert_eq!(r.i32().unwrap(), -5);
    assert_eq!(r.u64().unwrap(), 0x0102_0304_0506_0708);
    assert_eq!(r.remaining(), 2);
    assert_eq!(r.take(2).unwrap(), b"xy");
    assert!(r.is_empty());
    assert!(r.u8().is_err());
}

#[test]
fn short_read_leaves_reader_alone() {
    let v = [1u8, 2, 3];
    let mut r = ByteReader::new(&v);
    let e = r.u32().unwrap_err();
    assert_eq!(e.kind, Kind::Malformed);
    assert_eq!(r.remaining(), 3);
    assert!(r.skip(1).is_ok());
    assert_eq!(r.rest(), &[2, 3]);
}

#[test]
fn clock_advances() {
    let mut c = LogicalClock::new(10);
    c.advance(5);
    assert_eq!(c.now(), 15);
}

#[test]
fn only_limits_are_fatal() {
    assert!(Kind::Malformed.is_recoverable());
    assert!(Kind::Protocol.is_recoverable());
    assert!(Kind::Unresolved.is_recoverable());
    assert!(!Kind::Limit.is_recoverable());
    let e = Error::limit("too big").with_context(9);
    assert_eq!(e.kind(), Kind::Limit);
    assert_eq!(e.context, Some(9));
}

#[test]
fn compact_config_is_smaller() {
    let big = Config::default();
    let small = Config::compact();
    assert!(small.flow_capacity < big.flow_capacity);
    assert!(small.window_size < big.window_size);
}

#[test]
fn filter_compiles_and_matches() {
    let f = Filter::compile(" octets >= 100 ").unwrap();
    assert_eq!(f, Filter { field: FilterField::Octets, op: CmpOp::Ge, value: 100 });
    let mut r = FlowRecord::new(FlowKey::from_flow_id(3), 0);
    r.accumulate(150, 1, 0);
    assert!(f.matches(&r));
    assert!(Filter::compile("flow == 3").unwrap().matches(&r));
    assert!(!Filter::compile("packets > 1").unwrap().matches(&r));
    assert!(Filter::compile("bytes > 1").is_err());
    assert!(Filter::compile("octets >").is_err());
}
