//! A registry of well-known field elements.
//!
//! Templates reference fields by numeric id. The information model maps those
//! ids to human-readable names and canonical types so tooling can render a
//! decoded record without a schema handy, and so a `SCHEMA_DEF` can be
//! validated against expected widths.

use vstd::prelude::*;

use crate::schema::field::FieldType;

verus! {

/// A well-known element definition.
#[derive(Debug, Clone, Copy)]
pub struct Element {
    pub id: u16,
    pub name: &'static str,
    pub ty: FieldType,
    /// Canonical on-wire width for fixed fields, 0 for variable.
    pub width: u16,
}

/// Number of entries in the built-in element table.
pub const ELEMENT_COUNT: usize = 58;

/// Entry `i` of the built-in element table, which is ordered by id.
pub open spec fn spec_element(i: int) -> Element {
    if i == 0 {
        Element { id: 1, name: "octetCount", ty: FieldType::U64, width: 8 }
    } else if i == 1 {
        Element { id: 2, name: "packetCount", ty: FieldType::U64, width: 8 }
    } else if i == 2 {
        Element { id: 3, name: "flowCount", ty: FieldType::U64, width: 8 }
    } else if i == 3 {
        Element { id: 4, name: "protocolIdentifier", ty: FieldType::U8, width: 1 }
    } else if i == 4 {
        Element { id: 5, name: "ipClassOfService", ty: FieldType::U8, width: 1 }
    } else if i == 5 {
        Element { id: 6, name: "tcpControlBits", ty: FieldType::U16, width: 2 }
    } else if i == 6 {
        Element { id: 7, name: "sourceTransportPort", ty: FieldType::U16, width: 2 }
    } else if i == 7 {
        Element { id: 8, name: "sourceIPv4Address", ty: FieldType::U32, width: 4 }
    } else if i == 8 {
        Element { id: 9, name: "sourceIPv4PrefixLength", ty: FieldType::U8, width: 1 }
    } else if i == 9 {
        Element { id: 10, name: "ingressInterface", ty: FieldType::U32, width: 4 }
    } else if i == 10 {
        Element { id: 11, name: "destinationTransportPort", ty: FieldType::U16, width: 2 }
    } else if i == 11 {
        Element { id: 12, name: "destinationIPv4Address", ty: FieldType::U32, width: 4 }
    } else if i == 12 {
        Element { id: 13, name: "destinationIPv4PrefixLength", ty: FieldType::U8, width: 1 }
    } else if i == 13 {
        Element { id: 14, name: "egressInterface", ty: FieldType::U32, width: 4 }
    } else if i == 14 {
        Element { id: 15, name: "ipNextHopIPv4Address", ty: FieldType::U32, width: 4 }
    } else if i == 15 {
        Element { id: 16, name: "bgpSourceAsNumber", ty: FieldType::U32, width: 4 }
    } else if i == 16 {
        Element { id: 17, name: "bgpDestinationAsNumber", ty: FieldType::U32, width: 4 }
    } else if i == 17 {
        Element { id: 21, name: "flowEndSysUpTime", ty: FieldType::U32, width: 4 }
    } else if i == 18 {
        Element { id: 22, name: "flowStartSysUpTime", ty: FieldType::U32, width: 4 }
    } else if i == 19 {
        Element { id: 32, name: "icmpTypeCodeIPv4", ty: FieldType::U16, width: 2 }
    } else if i == 20 {
        Element { id: 34, name: "samplingInterval", ty: FieldType::U32, width: 4 }
    } else if i == 21 {
        Element { id: 35, name: "samplingAlgorithm", ty: FieldType::U8, width: 1 }
    } else if i == 22 {
        Element { id: 36, name: "flowActiveTimeout", ty: FieldType::U16, width: 2 }
    } else if i == 23 {
        Element { id: 37, name: "flowIdleTimeout", ty: FieldType::U16, width: 2 }
    } else if i == 24 {
        Element { id: 40, name: "exportedOctetTotalCount", ty: FieldType::U64, width: 8 }
    } else if i == 25 {
        Element { id: 41, name: "exportedMessageTotalCount", ty: FieldType::U64, width: 8 }
    } else if i == 26 {
        Element { id: 42, name: "exportedFlowRecordTotalCount", ty: FieldType::U64, width: 8 }
    } else if i == 27 {
        Element { id: 52, name: "minimumTTL", ty: FieldType::U8, width: 1 }
    } else if i == 28 {
        Element { id: 53, name: "maximumTTL", ty: FieldType::U8, width: 1 }
    } else if i == 29 {
        Element { id: 56, name: "sourceMacAddress", ty: FieldType::Fixed, width: 6 }
    } else if i == 30 {
        Element { id: 57, name: "postDestinationMacAddress", ty: FieldType::Fixed, width: 6 }
    } else if i == 31 {
        Element { id: 58, name: "vlanId", ty: FieldType::U16, width: 2 }
    } else if i == 32 {
        Element { id: 60, name: "ipVersion", ty: FieldType::U8, width: 1 }
    } else if i == 33 {
        Element { id: 61, name: "flowDirection", ty: FieldType::U8, width: 1 }
    } else if i == 34 {
        Element { id: 82, name: "interfaceName", ty: FieldType::Utf8, width: 0 }
    } else if i == 35 {
        Element { id: 83, name: "interfaceDescription", ty: FieldType::Utf8, width: 0 }
    } else if i == 36 {
        Element { id: 85, name: "octetTotalCount", ty: FieldType::U64, width: 8 }
    } else if i == 37 {
        Element { id: 86, name: "packetTotalCount", ty: FieldType::U64, width: 8 }
    } else if i == 38 {
        Element { id: 136, name: "flowEndReason", ty: FieldType::U8, width: 1 }
    } else if i == 39 {
        Element { id: 150, name: "flowStartSeconds", ty: FieldType::Timestamp, width: 8 }
    } else if i == 40 {
        Element { id: 151, name: "flowEndSeconds", ty: FieldType::Timestamp, width: 8 }
    } else if i == 41 {
        Element { id: 152, name: "flowStartMilliseconds", ty: FieldType::Timestamp, width: 8 }
    } else if i == 42 {
        Element { id: 153, name: "flowEndMilliseconds", ty: FieldType::Timestamp, width: 8 }
    } else if i == 43 {
        Element { id: 210, name: "paddingOctets", ty: FieldType::Fixed, width: 0 }
    } else if i == 44 {
        Element { id: 214, name: "exportProtocolVersion", ty: FieldType::U8, width: 1 }
    } else if i == 45 {
        Element { id: 230, name: "natEvent", ty: FieldType::U8, width: 1 }
    } else if i == 46 {
        Element { id: 233, name: "firewallEvent", ty: FieldType::U8, width: 1 }
    } else if i == 47 {
        Element { id: 234, name: "ingressVRFID", ty: FieldType::U32, width: 4 }
    } else if i == 48 {
        Element { id: 235, name: "egressVRFID", ty: FieldType::U32, width: 4 }
    } else if i == 49 {
        Element { id: 239, name: "biflowDirection", ty: FieldType::U8, width: 1 }
    } else if i == 50 {
        Element { id: 243, name: "dot1qVlanId", ty: FieldType::U16, width: 2 }
    } else if i == 51 {
        Element { id: 256, name: "sourceIPv6Address", ty: FieldType::Fixed, width: 16 }
    } else if i == 52 {
        Element { id: 257, name: "destinationIPv6Address", ty: FieldType::Fixed, width: 16 }
    } else if i == 53 {
        Element { id: 258, name: "applicationId", ty: FieldType::Fixed, width: 4 }
    } else if i == 54 {
        Element { id: 300, name: "observationDomainName", ty: FieldType::Utf8, width: 0 }
    } else if i == 55 {
        Element { id: 315, name: "dataLinkFrameSize", ty: FieldType::U16, width: 2 }
    } else if i == 56 {
        Element { id: 346, name: "privateEnterpriseNumber", ty: FieldType::U32, width: 4 }
    } else if i == 57 {
        Element { id: 400, name: "layer2FrameSection", ty: FieldType::VarBytes, width: 0 }
    } else {
        Element { id: 0, name: "unknown", ty: FieldType::Fixed, width: 0 }
    }
}

/// Entry `i` of the built-in element table.
pub fn element(i: usize) -> (e: Element)
    requires
        i < ELEMENT_COUNT,
    ensures
        e == spec_element(i as int),
{
    match i {
        0 => Element { id: 1, name: "octetCount", ty: FieldType::U64, width: 8 },
        1 => Element { id: 2, name: "packetCount", ty: FieldType::U64, width: 8 },
        2 => Element { id: 3, name: "flowCount", ty: FieldType::U64, width: 8 },
        3 => Element { id: 4, name: "protocolIdentifier", ty: FieldType::U8, width: 1 },
        4 => Element { id: 5, name: "ipClassOfService", ty: FieldType::U8, width: 1 },
        5 => Element { id: 6, name: "tcpControlBits", ty: FieldType::U16, width: 2 },
        6 => Element { id: 7, name: "sourceTransportPort", ty: FieldType::U16, width: 2 },
        7 => Element { id: 8, name: "sourceIPv4Address", ty: FieldType::U32, width: 4 },
        8 => Element { id: 9, name: "sourceIPv4PrefixLength", ty: FieldType::U8, width: 1 },
        9 => Element { id: 10, name: "ingressInterface", ty: FieldType::U32, width: 4 },
        10 => Element { id: 11, name: "destinationTransportPort", ty: FieldType::U16, width: 2 },
        11 => Element { id: 12, name: "destinationIPv4Address", ty: FieldType::U32, width: 4 },
        12 => Element { id: 13, name: "destinationIPv4PrefixLength", ty: FieldType::U8, width: 1 },
        13 => Element { id: 14, name: "egressInterface", ty: FieldType::U32, width: 4 },
        14 => Element { id: 15, name: "ipNextHopIPv4Address", ty: FieldType::U32, width: 4 },
        15 => Element { id: 16, name: "bgpSourceAsNumber", ty: FieldType::U32, width: 4 },
        16 => Element { id: 17, name: "bgpDestinationAsNumber", ty: FieldType::U32, width: 4 },
        17 => Element { id: 21, name: "flowEndSysUpTime", ty: FieldType::U32, width: 4 },
        18 => Element { id: 22, name: "flowStartSysUpTime", ty: FieldType::U32, width: 4 },
        19 => Element { id: 32, name: "icmpTypeCodeIPv4", ty: FieldType::U16, width: 2 },
        20 => Element { id: 34, name: "samplingInterval", ty: FieldType::U32, width: 4 },
        21 => Element { id: 35, name: "samplingAlgorithm", ty: FieldType::U8, width: 1 },
        22 => Element { id: 36, name: "flowActiveTimeout", ty: FieldType::U16, width: 2 },
        23 => Element { id: 37, name: "flowIdleTimeout", ty: FieldType::U16, width: 2 },
        24 => Element { id: 40, name: "exportedOctetTotalCount", ty: FieldType::U64, width: 8 },
        25 => Element { id: 41, name: "exportedMessageTotalCount", ty: FieldType::U64, width: 8 },
        26 => Element { id: 42, name: "exportedFlowRecordTotalCount", ty: FieldType::U64, width: 8 },
        27 => Element { id: 52, name: "minimumTTL", ty: FieldType::U8, width: 1 },
        28 => Element { id: 53, name: "maximumTTL", ty: FieldType::U8, width: 1 },
        29 => Element { id: 56, name: "sourceMacAddress", ty: FieldType::Fixed, width: 6 },
        30 => Element { id: 57, name: "postDestinationMacAddress", ty: FieldType::Fixed, width: 6 },
        31 => Element { id: 58, name: "vlanId", ty: FieldType::U16, width: 2 },
        32 => Element { id: 60, name: "ipVersion", ty: FieldType::U8, width: 1 },
        33 => Element { id: 61, name: "flowDirection", ty: FieldType::U8, width: 1 },
        34 => Element { id: 82, name: "interfaceName", ty: FieldType::Utf8, width: 0 },
        35 => Element { id: 83, name: "interfaceDescription", ty: FieldType::Utf8, width: 0 },
        36 => Element { id: 85, name: "octetTotalCount", ty: FieldType::U64, width: 8 },
        37 => Element { id: 86, name: "packetTotalCount", ty: FieldType::U64, width: 8 },
        38 => Element { id: 136, name: "flowEndReason", ty: FieldType::U8, width: 1 },
        39 => Element { id: 150, name: "flowStartSeconds", ty: FieldType::Timestamp, width: 8 },
        40 => Element { id: 151, name: "flowEndSeconds", ty: FieldType::Timestamp, width: 8 },
        41 => Element { id: 152, name: "flowStartMilliseconds", ty: FieldType::Timestamp, width: 8 },
        42 => Element { id: 153, name: "flowEndMilliseconds", ty: FieldType::Timestamp, width: 8 },
        43 => Element { id: 210, name: "paddingOctets", ty: FieldType::Fixed, width: 0 },
        44 => Element { id: 214, name: "exportProtocolVersion", ty: FieldType::U8, width: 1 },
        45 => Element { id: 230, name: "natEvent", ty: FieldType::U8, width: 1 },
        46 => Element { id: 233, name: "firewallEvent", ty: FieldType::U8, width: 1 },
        47 => Element { id: 234, name: "ingressVRFID", ty: FieldType::U32, width: 4 },
        48 => Element { id: 235, name: "egressVRFID", ty: FieldType::U32, width: 4 },
        49 => Element { id: 239, name: "biflowDirection", ty: FieldType::U8, width: 1 },
        50 => Element { id: 243, name: "dot1qVlanId", ty: FieldType::U16, width: 2 },
        51 => Element { id: 256, name: "sourceIPv6Address", ty: FieldType::Fixed, width: 16 },
        52 => Element { id: 257, name: "destinationIPv6Address", ty: FieldType::Fixed, width: 16 },
        53 => Element { id: 258, name: "applicationId", ty: FieldType::Fixed, width: 4 },
        54 => Element { id: 300, name: "observationDomainName", ty: FieldType::Utf8, width: 0 },
        55 => Element { id: 315, name: "dataLinkFrameSize", ty: FieldType::U16, width: 2 },
        56 => Element { id: 346, name: "privateEnterpriseNumber", ty: FieldType::U32, width: 4 },
        57 => Element { id: 400, name: "layer2FrameSection", ty: FieldType::VarBytes, width: 0 },
        _ => Element { id: 0, name: "unknown", ty: FieldType::Fixed, width: 0 },
    }
}

/// The whole table, in id order.
pub fn elements() -> (v: Vec<Element>)
    ensures
        v@ == Seq::new(ELEMENT_COUNT as nat, |i: int| spec_element(i)),
{
    let mut v: Vec<Element> = Vec::new();
    let mut i: usize = 0;
    while i < ELEMENT_COUNT
        invariant
            i <= ELEMENT_COUNT,
            v@ == Seq::new(i as nat, |j: int| spec_element(j)),
        decreases ELEMENT_COUNT - i,
    {
        v.push(element(i));
        i = i + 1;
        assert(v@ =~= Seq::new(i as nat, |j: int| spec_element(j)));
    }
    v
}

proof fn lemma_table_sorted_step()
    ensures
        forall|i: int| 0 <= i < ELEMENT_COUNT - 1 ==> #[trigger] spec_element(i).id < spec_element(i + 1).id,
{
    assert forall|i: int| 0 <= i < ELEMENT_COUNT - 1 implies #[trigger] spec_element(i).id < spec_element(i + 1).id by {
    }
}

/// The table is strictly ordered by id.
pub proof fn lemma_table_sorted(i: int, j: int)
    requires
        0 <= i < j < ELEMENT_COUNT,
    ensures
        spec_element(i).id < spec_element(j).id,
    decreases j - i,
{
    lemma_table_sorted_step();
    if j > i + 1 {
        lemma_table_sorted(i, j - 1);
        assert(spec_element(j - 1).id < spec_element(j).id);
    }
}

/// The element with this id, if the table has one.
pub open spec fn spec_lookup(id: u16) -> Option<Element> {
    if exists|i: int| 0 <= i < ELEMENT_COUNT && (#[trigger] spec_element(i)).id == id {
        Some(spec_element(choose|i: int| 0 <= i < ELEMENT_COUNT && (#[trigger] spec_element(i)).id == id))
    } else {
        None
    }
}

/// Look up an element by id (binary search over the ordered table).
pub fn lookup(id: u16) -> (r: Option<Element>)
    ensures
        r == spec_lookup(id),
{
    let mut lo: usize = 0;
    let mut hi: usize = ELEMENT_COUNT;
    while lo < hi
        invariant
            0 <= lo <= hi <= ELEMENT_COUNT,
            forall|i: int| 0 <= i < lo ==> (#[trigger] spec_element(i)).id < id,
            forall|i: int| hi <= i < ELEMENT_COUNT ==> (#[trigger] spec_element(i)).id > id,
        decreases hi - lo,
    {
        let mid = lo + (hi - lo) / 2;
        let e = element(mid);
        if e.id == id {
            proof {
                assert forall|i: int| 0 <= i < ELEMENT_COUNT && (#[trigger] spec_element(i)).id == id implies i == mid by {
                    if i < mid {
                        lemma_table_sorted(i, mid as int);
                    } else if i > mid {
                        lemma_table_sorted(mid as int, i);
                    }
                }
            }
            return Some(e);
        } else if e.id < id {
            proof {
                assert forall|i: int| 0 <= i < mid + 1 implies (#[trigger] spec_element(i)).id < id by {
                    if i < mid {
                        lemma_table_sorted(i, mid as int);
                    }
                }
            }
            lo = mid + 1;
        } else {
            proof {
                assert forall|i: int| mid <= i < ELEMENT_COUNT implies (#[trigger] spec_element(i)).id > id by {
                    if i > mid {
                        lemma_table_sorted(mid as int, i);
                    }
                }
            }
            hi = mid;
        }
    }
    None
}

/// Resolve an id to a name, or `"unknown"`.
pub fn name_of(id: u16) -> (n: &'static str)
    ensures
        n == (match spec_lookup(id) {
            Some(e) => e.name,
            None => "unknown",
        }),
{
    match lookup(id) {
        Some(e) => e.name,
        None => "unknown",
    }
}

/// Whether a `SCHEMA_DEF` field's width agrees with the model, if the element
/// is known and fixed-width.
pub fn width_ok(id: u16, ty: FieldType, width: u16) -> (b: bool)
    ensures
        b == (match spec_lookup(id) {
            Some(e) => e.width == 0 || (e.ty == ty && e.width == width),
            None => true,
        }),
{
    match lookup(id) {
        Some(e) => {
            if e.width != 0 {
                e.ty == ty && e.width == width
            } else {
                true
            }
        },
        None => true,
    }
}

} // verus!
