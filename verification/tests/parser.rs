use corvid::inspect::{inspect_stream, render};
use corvid::parser::builder::payload;
use corvid::parser::{FrameParser, StreamBuilder};
use corvid::proto::descriptor;
use corvid::util::{hex_preview, ByteWriter};
use corvid::wire::{self, MsgType};

fn stream(msgs: &[(u8, u8, &[u8])]) -> Vec<u8> {
    let mut w = ByteWriter::new();
    w.bytes(&wire::MAGIC);
    w.u8(wire::VERSION);
    w.u8(0);
    w.u16(msgs.len() as u16);
    for (ty, flags, payload) in msgs {
        w.u8(*ty);
        w.u8(*flags);
        w.u32(payload.len() as u32);
        w.bytes(payload);
    }
    w.into_vec()
}

#[test]
fn builds_parseable_stream() {
    let data = StreamBuilder::new()
        .msg(MsgType::SessionOpen, payload::session_open(1, 0))
        .msg(MsgType::FlowOpen, payload::flow_open(7, 4096))
        .build();
    let mut p = FrameParser::new();
    let msgs = p.parse_all(&data).unwrap();
    assert_eq!(msgs.len(), 2);
    assert_eq!(msgs[1].ty, MsgType::FlowOpen);
}

#[test]
fn built_payloads_come_back_unchanged() {
    let open = payload::session_open(0x1234, 0x8);
    let frag = payload::fragment(9, -3, b"xyz");
    let data = StreamBuilder::new()
        .msg(MsgType::SessionOpen, open.clone())
        .msg_flags(MsgType::Fragment, 0x02, frag.clone())
        .build();
    let mut p = FrameParser::new();
    let msgs = p.parse_all(&data).unwrap();
    assert_eq!(msgs[0].payload, &open[..]);
    assert_eq!(msgs[1].payload, &frag[..]);
    assert_eq!(msgs[1].flags, 0x02);
    assert!(msgs[1].is_continuation());
    assert!(!msgs[1].is_compressed());
}

#[test]
fn parses_two_messages() {
    let data = stream(&[(0x01, 0, &[1, 2, 3]), (0x06, 0, &[4, 5])]);
    let mut p = FrameParser::new();
    let msgs = p.parse_all(&data).unwrap();
    assert_eq!(msgs.len(), 2);
    assert_eq!(msgs[0].ty, MsgType::SessionOpen);
    assert_eq!(msgs[0].payload, &[1, 2, 3]);
    assert_eq!(msgs[1].payload, &[4, 5]);
}

#[test]
fn frame_rejects_bad_magic() {
    let mut data = stream(&[(0x01, 0, &[])]);
    data[0] = 0;
    assert!(FrameParser::new().parse_all(&data).is_err());
}

#[test]
fn skips_unknown_type() {
    let data = stream(&[(0xEE, 0, &[9])]);
    let mut p = FrameParser::new();
    let msgs = p.parse_all(&data).unwrap();
    assert_eq!(msgs.len(), 0);
    assert_eq!(p.skipped_unknown(), 1);
}

#[test]
fn message_running_past_stream_is_malformed() {
    let mut data = stream(&[(0x01, 0, &[1, 2, 3])]);
    data.pop();
    let e = FrameParser::new().parse_all(&data).unwrap_err();
    assert_eq!(e.kind, corvid::error::Kind::Malformed);
}

#[test]
fn every_type_has_descriptor() {
    for v in 0x01u8..=0x24 {
        if let Some(ty) = MsgType::from_u8(v) {
            let d = descriptor(ty);
            assert_eq!(d.ty, ty);
        }
    }
}

#[test]
fn session_open_needs_no_open() {
    assert!(!descriptor(MsgType::SessionOpen).requires_open);
    assert!(descriptor(MsgType::DataRecord).requires_open);
}

#[test]
fn min_len_enforced() {
    assert!(!descriptor(MsgType::SessionOpen).accepts_len(4));
    assert!(descriptor(MsgType::SessionOpen).accepts_len(8));
}

#[test]
fn wire_codes_roundtrip() {
    for v in 0u8..=255 {
        if let Some(ty) = MsgType::from_u8(v) {
            assert_eq!(ty.code(), v);
        }
    }
    assert!(MsgType::from_u8(0).is_none());
    assert!(MsgType::from_u8(0x25).is_none());
    assert_eq!(MsgType::DataRecord.name(), "DATA_RECORD");
}

#[test]
fn inspects_a_stream() {
    let mut payload = ByteWriter::new();
    payload.u32(0x1000);
    payload.u32(0);
    let payload = payload.into_vec();
    let mut w = ByteWriter::new();
    w.bytes(&wire::MAGIC);
    w.u8(wire::VERSION);
    w.u8(0);
    w.u16(1);
    w.u8(0x01);
    w.u8(0);
    w.u32(payload.len() as u32);
    w.bytes(&payload);
    let data = w.into_vec();

    let lines = inspect_stream(&data).unwrap();
    assert_eq!(lines.len(), 1);
    assert!(lines[0].detail.contains("session="));
    assert!(render(&lines).contains("SESSION_OPEN"));
}

#[test]
fn inspect_line_format() {
    let data = StreamBuilder::new()
        .msg(MsgType::SessionOpen, payload::session_open(0x1000, 0))
        .msg(MsgType::Fragment, payload::fragment(0xab, -2, b"zz"))
        .msg(MsgType::FlowOpen, vec![1, 2])
        .msg(MsgType::Request, vec![0xde, 0xad])
        .build();
    let lines = inspect_stream(&data).unwrap();
    assert_eq!(lines.len(), 4);
    assert_eq!(lines[0].detail, "session=0x00001000 features=0x00000000");
    assert_eq!(lines[1].detail, "flow=0x000000ab offset=-2 len=2");
    assert_eq!(lines[2].detail, "truncated");
    assert_eq!(lines[3].detail, "de ad");
    let text = render(&lines[..1]);
    assert_eq!(text, "[  0] SESSION_OPEN     flags=0x00 len=8     session=0x00001000 features=0x00000000\n");
}

#[test]
fn inspect_passes_framing_errors_through() {
    let data = b"XXXX\x01\x00\x00\x00";
    assert!(inspect_stream(data).is_err());
}

#[test]
fn hex_preview_cuts_long_payloads() {
    assert_eq!(hex_preview(&[], 12), "");
    assert_eq!(hex_preview(&[0x01, 0xff], 12), "01 ff");
    assert_eq!(hex_preview(&[1, 2, 3], 2), "01 02 ...");
}
