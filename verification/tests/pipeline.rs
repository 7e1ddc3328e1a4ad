use corvid::config::Config;
use corvid::flow::{FlowKey, FlowRecord};
use corvid::io::CaptureRecord;
use corvid::pipeline::Pipeline;
use corvid::util::ByteWriter;
use corvid::wire;

fn open_stream(sid: u32) -> Vec<u8> {
    let mut inner = ByteWriter::new();
    inner.u32(sid);
    inner.u32(0);
    let payload = inner.into_vec();
    let mut w = ByteWriter::new();
    w.bytes(&wire::MAGIC);
    w.u8(wire::VERSION);
    w.u8(0);
    w.u16(1);
    w.u8(0x01);
    w.u8(0);
    w.u32(payload.len() as u32);
    w.bytes(&payload);
    w.into_vec()
}

#[test]
fn observe_respects_filter() {
    let mut p = Pipeline::new(Config::compact()).with_filter("octets > 100").unwrap();
    let mut small = FlowRecord::new(FlowKey::from_flow_id(1), 0);
    small.accumulate(50, 1, 0);
    let mut big = FlowRecord::new(FlowKey::from_flow_id(2), 0);
    big.accumulate(500, 1, 0);
    p.observe(&small);
    p.observe(&big);
    assert_eq!(p.matched(), 1);
}

#[test]
fn no_filter_keeps_everything() {
    let mut p = Pipeline::new(Config::compact());
    let r = FlowRecord::new(FlowKey::from_flow_id(1), 0);
    p.observe(&r);
    p.observe(&r);
    assert_eq!(p.matched(), 2);
}

#[test]
fn bad_filter_is_refused() {
    assert!(Pipeline::new(Config::compact()).with_filter("octets >> 1").is_err());
}

#[test]
fn feeding_counts_streams() {
    let mut p = Pipeline::new(Config::compact());
    p.feed_stream(1, &open_stream(1)).unwrap();
    assert!(p.feed_stream(2, b"junk").is_err());
    assert_eq!(p.streams_in(), 2);
}

#[test]
fn capture_streams_are_fed_even_when_one_fails() {
    let recs = vec![
        CaptureRecord { timestamp_ms: 1, stream: open_stream(1) },
        CaptureRecord { timestamp_ms: 2, stream: vec![0, 1, 2] },
        CaptureRecord { timestamp_ms: 3, stream: open_stream(3) },
    ];
    let data = corvid::io::capture::write(&recs);
    let mut p = Pipeline::new(Config::compact());
    p.feed_capture(&data).unwrap();
    assert_eq!(p.streams_in(), 3);
}

#[test]
fn unreadable_capture_feeds_nothing() {
    let mut p = Pipeline::new(Config::compact());
    assert!(p.feed_capture(b"XXXX\x01\x00\x00\x00").is_err());
    assert_eq!(p.streams_in(), 0);
}
