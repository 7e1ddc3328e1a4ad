//! Flow lifecycle: keys, per-flow records, the flow table and the connection
//! registry.

pub mod biflow;
pub mod conn;
pub mod dir;
pub mod expire;
pub mod key;
pub mod record;
pub mod stats;
pub mod table;

pub use biflow::{Biflow, BiflowPairer};
pub use conn::{ConnRegistry, Connection};
pub use dir::{canonicalize, Direction};
pub use expire::{ExpiryPolicy, ExpiryReason};
pub use key::FlowKey;
pub use record::{FlowRecord, FlowState};
pub use stats::FlowStats;
pub use table::FlowTable;
