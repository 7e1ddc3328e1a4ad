//! Network-layer value helpers (address formatting, protocol names).

pub mod addr;
pub mod cidr;
pub mod mac;
pub mod portrange;

pub use addr::{fmt_ipv4, fmt_ipv6, parse_ipv4, proto_name};
pub use cidr::{Cidr4, PrefixSet};
pub use mac::{fmt_mac, parse_mac};
pub use portrange::{PortRange, PortSet};
