use corvid::io::hexdump::{dump, dump_from, row_count};
use corvid::io::{BatchReader, CaptureReader, CaptureRecord, CountingSink, SeekableStream, Sink, TeeSink};
use corvid::metrics::Metrics;

#[test]
fn capture_roundtrip() {
    let recs = vec![
        CaptureRecord { timestamp_ms: 100, stream: vec![1, 2, 3] },
        CaptureRecord { timestamp_ms: 200, stream: vec![4, 5] },
    ];
    let buf = corvid::io::capture::write(&recs);
    let back = CaptureReader::open(&buf).unwrap().read_all().unwrap();
    assert_eq!(back.len(), 2);
    assert_eq!(back[1].timestamp_ms, 200);
    assert_eq!(back[0].stream, vec![1, 2, 3]);
}

#[test]
fn capture_rejects_bad_magic() {
    assert!(CaptureReader::open(b"XXXX\x01\x00\x00\x00").is_err());
}

#[test]
fn capture_empty_file_reads_nothing() {
    let buf = corvid::io::capture::write(&[]);
    let back = CaptureReader::open(&buf).unwrap().read_all().unwrap();
    assert!(back.is_empty());
}

#[test]
fn capture_truncated_record_errors() {
    let recs = vec![CaptureRecord { timestamp_ms: 7, stream: vec![9, 9, 9, 9] }];
    let mut buf = corvid::io::capture::write(&recs);
    buf.pop();
    let mut r = CaptureReader::open(&buf).unwrap();
    assert!(r.next_record().is_err());
}

#[test]
fn splits_two_streams() {
    let mut buf = Vec::new();
    buf.extend_from_slice(&3u32.to_be_bytes());
    buf.extend_from_slice(b"abc");
    buf.extend_from_slice(&2u32.to_be_bytes());
    buf.extend_from_slice(b"de");
    let mut r = BatchReader::new(&buf);
    assert_eq!(r.next_stream().unwrap(), Some(&b"abc"[..]));
    assert_eq!(r.next_stream().unwrap(), Some(&b"de"[..]));
    assert_eq!(r.next_stream().unwrap(), None);
}

#[test]
fn truncated_stream_errors() {
    let mut buf = Vec::new();
    buf.extend_from_slice(&10u32.to_be_bytes());
    buf.extend_from_slice(b"short");
    let mut r = BatchReader::new(&buf);
    assert!(r.next_stream().is_err());
}

#[test]
fn oversized_stream_is_a_limit_error() {
    let mut buf = Vec::new();
    buf.extend_from_slice(&5u32.to_be_bytes());
    buf.extend_from_slice(b"abcde");
    let mut r = BatchReader::with_max(&buf, 4);
    let e = r.next_stream().unwrap_err();
    assert_eq!(e.kind, corvid::error::Kind::Limit);
}

#[test]
fn dumps_ascii_and_hex() {
    let text = dump(b"hello world!");
    assert!(text.contains("68 65 6c 6c 6f"));
    assert!(text.contains("|hello world!|"));
}

#[test]
fn dump_from_offsets_the_address_column() {
    let a = dump(b"ab");
    let b = dump_from(b"ab", 0x10);
    assert!(a.starts_with("00000000"));
    assert!(b.starts_with("00000010"));
}

#[test]
fn row_math() {
    assert_eq!(row_count(0), 0);
    assert_eq!(row_count(16), 1);
    assert_eq!(row_count(17), 2);
}

#[test]
fn relative_seek_bounds() {
    let mut s = SeekableStream::new(vec![0u8; 10]);
    s.seek_to(5);
    assert!(s.seek_relative(-5).is_ok());
    assert_eq!(s.position(), 0);
    assert!(s.seek_relative(-1).is_err());
    assert!(s.seek_relative(11).is_err());
}

#[test]
fn read_advances_position() {
    let mut s = SeekableStream::new(vec![1, 2, 3, 4]);
    assert_eq!(s.read(2).unwrap(), &[1, 2][..]);
    assert_eq!(s.position(), 2);
    assert!(s.read(3).is_err());
    assert_eq!(s.byte_at(3).unwrap(), 4);
    assert!(s.byte_at(4).is_err());
}

#[test]
fn counting_sink_tallies() {
    let mut c = CountingSink::new();
    c.write(b"hello");
    c.write(b"!");
    assert_eq!(c.bytes(), 6);
    assert_eq!(c.writes(), 2);
}

#[test]
fn tee_fans_out() {
    let mut t = TeeSink::new(Vec::new(), CountingSink::new());
    t.write(b"abc");
    let (buf, counter) = t.into_parts();
    assert_eq!(buf, b"abc");
    assert_eq!(counter.bytes(), 3);
}

#[test]
fn counters_move() {
    let mut m = Metrics::new();
    m.note_stream(100);
    m.note_message(0x06);
    m.note_record();
    m.open_flow();
    m.close_flow();
    assert_eq!(m.streams_parsed, 1);
    assert_eq!(m.records_decoded, 1);
    assert_eq!(m.live_flows, 0);
    assert!(m.summary().contains("recs=1"));
}

#[test]
fn message_counts_by_type() {
    let mut m = Metrics::new();
    m.note_message(0x06);
    m.note_message(0x06);
    m.note_message(0x01);
    assert_eq!(m.messages_seen, 3);
    assert_eq!(m.messages_by_type[0x06], 2);
    assert_eq!(m.messages_by_type[0x01], 1);
}
