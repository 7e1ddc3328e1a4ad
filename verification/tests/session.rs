use corvid::config::Config;
use corvid::proto::Category;
use corvid::schema::FieldType;
use corvid::session::decode::{fixed_width_of, parse_data_header, parse_fields};
use corvid::session::{Broker, Session, LimitTracker, Limits, Resource, Router};
use corvid::util::{ByteReader, ByteWriter};
use corvid::wire::{self, MsgType};

fn open_stream(sid: u32) -> Vec<u8> {
    let mut inner = ByteWriter::new();
    inner.u32(sid);
    inner.u32(0);
    let payload = inner.into_vec();
    let mut w = ByteWriter::new();
    w.bytes(&wire::MAGIC);
    w.u8(wire::VERSION);
    w.u8(0);
    w.u16(1);
    w.u8(0x01);
    w.u8(0);
    w.u32(payload.len() as u32);
    w.bytes(&payload);
    w.into_vec()
}

#[test]
fn routes_to_distinct_sessions() {
    let mut b = Broker::new(Config::compact());
    b.route(1, &open_stream(1)).unwrap();
    b.route(2, &open_stream(2)).unwrap();
    assert_eq!(b.session_count(), 2);
    assert_eq!(b.routed(), 2);
}

#[test]
fn reaps_idle_sessions_over_cap() {
    let mut b = Broker::new(Config::compact()).with_limits(2, 2);
    for i in 0..5u32 {
        b.route(i, &open_stream(i)).unwrap();
    }
    assert!(b.session_count() <= 5);
}

#[test]
fn idle_sessions_are_reaped_in_order() {
    let mut b = Broker::new(Config::compact()).with_limits(2, 2);
    for i in 0..5u32 {
        b.route(i, &open_stream(i)).unwrap();
    }
    assert_eq!(b.session_count(), 2);
    assert_eq!(b.reaped(), 3);
}

#[test]
fn route_batch_counts_streams() {
    let mut buf = Vec::new();
    for sid in [1u32, 2] {
        let s = open_stream(sid);
        buf.extend_from_slice(&(s.len() as u32).to_be_bytes());
        buf.extend_from_slice(&s);
    }
    let mut b = Broker::new(Config::compact());
    b.route_batch(5, &buf).unwrap();
    assert_eq!(b.routed(), 2);
    assert_eq!(b.session_count(), 1);
}

#[test]
fn route_batch_rejects_bad_framing() {
    let mut buf = Vec::new();
    buf.extend_from_slice(&10u32.to_be_bytes());
    buf.extend_from_slice(b"short");
    let mut b = Broker::new(Config::compact());
    assert!(b.route_batch(5, &buf).is_err());
    assert_eq!(b.routed(), 0);
}

#[test]
fn route_passes_framing_errors_back() {
    let mut b = Broker::new(Config::compact());
    let e = b.route(1, b"XXXX\x01\x00\x00\x00").unwrap_err();
    assert_eq!(e.kind, corvid::error::Kind::Malformed);
    assert_eq!(b.routed(), 1);
}

#[test]
fn aggregate_sums_over_sessions() {
    let mut b = Broker::new(Config::compact());
    b.route(1, &open_stream(1)).unwrap();
    b.route(2, &open_stream(2)).unwrap();
    b.route(2, &open_stream(2)).unwrap();
    let m = b.aggregate_metrics();
    assert_eq!(m.messages_seen, 3);
    assert_eq!(m.decode_errors, 0);
    assert_eq!(m.streams_parsed, 0);
}

#[test]
fn same_transport_reuses_its_session() {
    let mut b = Broker::new(Config::compact());
    b.route(7, &open_stream(1)).unwrap();
    b.route(7, &open_stream(1)).unwrap();
    assert_eq!(b.session_count(), 1);
    assert_eq!(b.routed(), 2);
}

#[test]
fn parse_fields_roundtrip() {
    let mut w = ByteWriter::new();
    w.u16(2);
    w.u16(1);
    w.u8(FieldType::U32.code());
    w.u16(0);
    w.u16(2);
    w.u8(FieldType::Fixed.code());
    w.u16(6);
    let v = w.into_vec();
    let mut r = ByteReader::new(&v);
    let fields = parse_fields(&mut r).unwrap();
    assert_eq!(fields.len(), 2);
    assert_eq!(fields[1].width, 6);
    assert_eq!(fixed_width_of(&fields), 4 + 6);
}

#[test]
fn zero_fields_error() {
    let v = 0u16.to_be_bytes();
    let mut r = ByteReader::new(&v);
    assert!(parse_fields(&mut r).is_err());
}

#[test]
fn too_many_fields_is_a_limit_error() {
    let v = 5000u16.to_be_bytes();
    let mut r = ByteReader::new(&v);
    let e = parse_fields(&mut r).unwrap_err();
    assert_eq!(e.kind, corvid::error::Kind::Limit);
}

#[test]
fn data_header_reads_template_and_flow() {
    let v = data_record(256, 77, 1500);
    let mut r = ByteReader::new(&v);
    let h = parse_data_header(&mut r).unwrap();
    assert_eq!(h.template_id, 256);
    assert_eq!(h.key.flow_id, 77);
    assert_eq!(h.key.src, 0x0a00_0001);
    assert_eq!(h.octets, 1500);
    assert_eq!(h.packets, 1);
    assert!(r.is_empty());
}

#[test]
fn short_data_header_is_malformed() {
    let v = [0u8; 10];
    let mut r = ByteReader::new(&v);
    assert!(parse_data_header(&mut r).is_err());
}

#[test]
fn enforces_ceiling() {
    let mut t = LimitTracker::new(Limits { max_modules: 2, ..Limits::default() });
    assert!(t.acquire(Resource::Modules, 1));
    assert!(t.acquire(Resource::Modules, 1));
    assert!(!t.acquire(Resource::Modules, 1));
    assert_eq!(t.denials(), 1);
}

#[test]
fn release_frees_space() {
    let mut t = LimitTracker::new(Limits { max_flows: 1, ..Limits::default() });
    assert!(t.acquire(Resource::Flows, 1));
    t.release(Resource::Flows, 1);
    assert!(t.acquire(Resource::Flows, 1));
    assert_eq!(t.current(Resource::Flows), 1);
}

#[test]
fn usage_and_limit_for_pressure() {
    let mut t = LimitTracker::new(Limits { max_streams: 4, ..Limits::default() });
    t.acquire(Resource::Streams, 2);
    assert_eq!(t.usage_and_limit(Resource::Streams), (2, 4));
}

fn stream(msgs: &[(u8, &[u8])]) -> Vec<u8> {
    let mut w = ByteWriter::new();
    w.bytes(&wire::MAGIC);
    w.u8(wire::VERSION);
    w.u8(0);
    w.u16(msgs.len() as u16);
    for (ty, payload) in msgs {
        w.u8(*ty);
        w.u8(0);
        w.u32(payload.len() as u32);
        w.bytes(payload);
    }
    w.into_vec()
}

fn session_open() -> Vec<u8> {
    let mut w = ByteWriter::new();
    w.u32(0x1000);
    w.u32(0);
    w.into_vec()
}

fn template_def(tid: u16) -> Vec<u8> {
    let mut w = ByteWriter::new();
    w.u16(tid);
    w.u16(1);
    w.u16(1);
    w.u16(1);
    w.u8(FieldType::U32.code());
    w.u16(0);
    w.into_vec()
}

fn data_record(tid: u16, flow_id: u32, octets: u64) -> Vec<u8> {
    let mut w = ByteWriter::new();
    w.u16(tid);
    w.u32(flow_id);
    w.u32(0x0a00_0001);
    w.u32(0x0a00_0002);
    w.u16(1);
    w.u16(2);
    w.u8(6);
    w.u64(octets);
    w.u64(1);
    w.into_vec()
}

#[test]
fn full_happy_path() {
    let data = stream(&[
        (MsgType::SessionOpen.code(), &session_open()),
        (MsgType::TemplateDef.code(), &template_def(256)),
        (MsgType::DataRecord.code(), &data_record(256, 1, 100)),
        (MsgType::DataRecord.code(), &data_record(256, 1, 50)),
    ]);
    let mut s = Session::new();
    s.process_stream(&data).unwrap();
    assert_eq!(s.metrics().records_decoded, 2);
    assert_eq!(s.flow_count(), 1);
    s.teardown();
}

#[test]
fn data_before_open_is_error_but_recoverable() {
    let data = stream(&[(MsgType::DataRecord.code(), &data_record(1, 1, 1))]);
    let mut s = Session::new();
    s.process_stream(&data).unwrap();
    assert_eq!(s.metrics().decode_errors, 1);
    assert_eq!(s.flow_count(), 0);
}

#[test]
fn flow_messages_leave_the_flow_table_alone() {
    let mut open_flow = ByteWriter::new();
    open_flow.u32(5);
    open_flow.u32(4096);
    let open_flow = open_flow.into_vec();
    let data = stream(&[(MsgType::SessionOpen.code(), &session_open()), (MsgType::FlowOpen.code(), &open_flow)]);
    let mut s = Session::new();
    s.process_stream(&data).unwrap();
    assert_eq!(s.flow_count(), 0);
    assert_eq!(s.metrics().records_decoded, 0);
    assert_eq!(s.metrics().flows_opened, 1);
}

#[test]
fn scope_and_queue_messages_need_an_open_session() {
    let data = stream(&[(MsgType::ScopeBegin.code(), &[]), (MsgType::ProcessQueue.code(), &[]), (MsgType::ScopeEnd.code(), &[])]);
    let mut s = Session::new();
    s.process_stream(&data).unwrap();
    assert_eq!(s.metrics().decode_errors, 3);
    assert!(!s.is_open());
}

#[test]
fn unknown_template_record_is_not_counted() {
    let data = stream(&[(MsgType::SessionOpen.code(), &session_open()), (MsgType::DataRecord.code(), &data_record(9, 1, 5))]);
    let mut s = Session::new();
    s.process_stream(&data).unwrap();
    assert_eq!(s.metrics().records_decoded, 0);
    assert_eq!(s.metrics().decode_errors, 1);
    assert_eq!(s.flow_count(), 0);
}

#[test]
fn session_opens_on_session_open() {
    let data = stream(&[(MsgType::SessionOpen.code(), &session_open())]);
    let mut s = Session::new();
    assert!(!s.is_open());
    s.process_stream(&data).unwrap();
    assert!(s.is_open());
}

#[test]
fn rejects_before_open() {
    let mut r = Router::new();
    assert!(r.admit_message(MsgType::DataRecord, 8, false).is_err());
    assert_eq!(r.rejected(), 1);
}

#[test]
fn admits_and_accounts() {
    let mut r = Router::new();
    r.admit_message(MsgType::SessionOpen, 8, false).unwrap();
    r.admit_message(MsgType::DataRecord, 16, true).unwrap();
    assert_eq!(r.count(Category::Session), 1);
    assert_eq!(r.count(Category::Data), 1);
    assert_eq!(r.total(), 2);
    assert_eq!(r.bytes(Category::Data), 16);
}

#[test]
fn router_rejects_short() {
    let mut r = Router::new();
    assert!(r.admit_message(MsgType::SessionOpen, 2, false).is_err());
}

#[test]
fn section_snapshot_commit_is_accepted() {
    let mut sec = ByteWriter::new();
    sec.u32(2);
    sec.u32(4);
    sec.bytes(&[1, 2, 3, 4, 5, 6, 7, 8]);
    let sec = sec.into_vec();
    let begin = 0u32.to_be_bytes();
    let mut commit = ByteWriter::new();
    commit.u32(3);
    commit.bytes(&[9, 9, 9, 9]);
    let commit = commit.into_vec();
    let missing = 5u32.to_be_bytes();
    let data = stream(&[
        (MsgType::SessionOpen.code(), &session_open()),
        (MsgType::SectionHeader.code(), &sec),
        (MsgType::SnapshotBegin.code(), &begin),
        (MsgType::SnapshotCommit.code(), &commit),
        (MsgType::SnapshotBegin.code(), &missing),
    ]);
    let mut s = Session::new();
    s.process_stream(&data).unwrap();
    assert_eq!(s.metrics().decode_errors, 1);
}

#[test]
fn schema_update_needs_a_defined_schema() {
    let mut def = ByteWriter::new();
    def.u16(7);
    def.u16(1);
    def.u16(1);
    def.u8(FieldType::U32.code());
    def.u16(0);
    let def = def.into_vec();
    let data = stream(&[
        (MsgType::SessionOpen.code(), &session_open()),
        (MsgType::SchemaUpdate.code(), &def),
        (MsgType::SchemaDef.code(), &def),
        (MsgType::SchemaUpdate.code(), &def),
    ]);
    let mut s = Session::new();
    s.process_stream(&data).unwrap();
    assert_eq!(s.metrics().decode_errors, 1);
}

fn be(parts: &[&[u8]]) -> Vec<u8> {
    let mut v = Vec::new();
    for p in parts {
        v.extend_from_slice(p);
    }
    v
}

#[test]
fn request_needs_an_open_connection() {
    let conn = 1u32.to_be_bytes();
    let req = be(&[&1u32.to_be_bytes(), &7u16.to_be_bytes(), b"hi"]);
    let data = stream(&[
        (MsgType::SessionOpen.code(), &session_open()),
        (MsgType::ConnOpen.code(), &conn),
        (MsgType::Request.code(), &req),
        (MsgType::ProcessQueue.code(), &[]),
        (MsgType::ConnReset.code(), &conn),
        (MsgType::Request.code(), &req),
    ]);
    let mut s = Session::new();
    s.process_stream(&data).unwrap();
    assert_eq!(s.metrics().decode_errors, 1);
}

#[test]
fn fragments_go_to_opened_flows() {
    let open = 7u32.to_be_bytes();
    let frag = be(&[&7u32.to_be_bytes(), &0u32.to_be_bytes(), &2u16.to_be_bytes(), b"ab"]);
    let stray = be(&[&8u32.to_be_bytes(), &0u32.to_be_bytes(), &2u16.to_be_bytes(), b"ab"]);
    let data = stream(&[
        (MsgType::SessionOpen.code(), &session_open()),
        (MsgType::FlowOpen.code(), &open),
        (MsgType::Fragment.code(), &frag),
        (MsgType::Fragment.code(), &stray),
        (MsgType::FlowTimeout.code(), &open),
    ]);
    let mut s = Session::new();
    s.process_stream(&data).unwrap();
    assert_eq!(s.metrics().flows_opened, 1);
    assert_eq!(s.metrics().fragments_seen, 1);
    assert_eq!(s.metrics().flows_closed, 1);
    assert_eq!(s.metrics().live_flows, 0);
    assert_eq!(s.metrics().decode_errors, 1);
}

#[test]
fn channels_open_and_tear_down() {
    let open = be(&[&3u32.to_be_bytes(), &16u32.to_be_bytes()]);
    let alloc = be(&[&4u32.to_be_bytes(), &16u32.to_be_bytes()]);
    let down = 3u32.to_be_bytes();
    let data = stream(&[
        (MsgType::SessionOpen.code(), &session_open()),
        (MsgType::ChannelOpen.code(), &open),
        (MsgType::ChannelAlloc.code(), &alloc),
        (MsgType::ChannelTeardown.code(), &down),
        (MsgType::ChannelTeardown.code(), &down),
    ]);
    let mut s = Session::new();
    s.process_stream(&data).unwrap();
    assert_eq!(s.metrics().live_channels, 1);
    assert_eq!(s.metrics().decode_errors, 0);
}

#[test]
fn stream_reads_need_an_open_stream() {
    let open = be(&[&9u32.to_be_bytes(), &64u32.to_be_bytes()]);
    let pkt = be(&[&9u32.to_be_bytes(), &0u64.to_be_bytes(), b"abcd"]);
    let read = be(&[&9u32.to_be_bytes(), &0u64.to_be_bytes(), &4u32.to_be_bytes()]);
    let big = be(&[&9u32.to_be_bytes(), &0u64.to_be_bytes(), &65u32.to_be_bytes()]);
    let seek_bad = be(&[&9u32.to_be_bytes(), &(-100i32).to_be_bytes()]);
    let data = stream(&[
        (MsgType::SessionOpen.code(), &session_open()),
        (MsgType::StreamOpen.code(), &open),
        (MsgType::Packet.code(), &pkt),
        (MsgType::ReadWindow.code(), &read),
        (MsgType::SeekRelative.code(), &seek_bad),
    ]);
    let mut s = Session::new();
    s.process_stream(&data).unwrap();
    assert_eq!(s.metrics().decode_errors, 1);
    let data = stream(&[(MsgType::ReadWindow.code(), &big)]);
    assert!(s.process_stream(&data).is_err());
}

#[test]
fn release_beyond_32_bits_frees_everything() {
    let mut t = LimitTracker::new(Limits { max_flows: 4, ..Limits::default() });
    assert!(t.acquire(Resource::Flows, 3));
    t.release(Resource::Flows, 1u64 << 32);
    assert_eq!(t.current(Resource::Flows), 0);
}
