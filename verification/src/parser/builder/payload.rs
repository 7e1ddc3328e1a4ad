//! Convenience payload builders for the common message shapes.

use vstd::prelude::*;

use crate::util::{i32_bytes, u16_bytes, u32_bytes, u64_bytes, ByteWriter};

verus! {

/// `SESSION_OPEN`: session id, feature bits.
pub fn session_open(session_id: u32, features: u32) -> (v: Vec<u8>)
    ensures
        v@ == u32_bytes(session_id) + u32_bytes(features),
{
    let mut w = ByteWriter::new();
    w.u32(session_id);
    w.u32(features);
    w.into_vec()
}

/// `SESSION_CLOSE`: session id.
pub fn session_close(session_id: u32) -> (v: Vec<u8>)
    ensures
        v@ == u32_bytes(session_id),
{
    let mut w = ByteWriter::new();
    w.u32(session_id);
    w.into_vec()
}

/// `FLOW_OPEN`: flow id, window size.
pub fn flow_open(flow_id: u32, window: u32) -> (v: Vec<u8>)
    ensures
        v@ == u32_bytes(flow_id) + u32_bytes(window),
{
    let mut w = ByteWriter::new();
    w.u32(flow_id);
    w.u32(window);
    w.into_vec()
}

/// `FRAGMENT`: flow id, signed offset, 16-bit length, bytes.
pub fn fragment(flow_id: u32, offset: i32, data: &[u8]) -> (v: Vec<u8>)
    ensures
        v@ == u32_bytes(flow_id) + i32_bytes(offset) + u16_bytes(data@.len() as u16) + data@,
{
    let mut w = ByteWriter::new();
    w.u32(flow_id);
    w.i32(offset);
    w.u16(data.len() as u16);
    w.bytes(data);
    w.into_vec()
}

/// `DATA_RECORD` header with zero ports and protocol 6 (TCP).
pub fn data_record(template_id: u16, flow_id: u32, src: u32, dst: u32, octets: u64, packets: u64) -> (v: Vec<u8>)
    ensures
        v@ == u16_bytes(template_id) + u32_bytes(flow_id) + u32_bytes(src) + u32_bytes(dst) + u16_bytes(0)
            + u16_bytes(0) + seq![6u8] + u64_bytes(octets) + u64_bytes(packets),
{
    let mut w = ByteWriter::new();
    w.u16(template_id);
    w.u32(flow_id);
    w.u32(src);
    w.u32(dst);
    w.u16(0);
    w.u16(0);
    w.u8(6);
    w.u64(octets);
    w.u64(packets);
    w.into_vec()
}

} // verus!
