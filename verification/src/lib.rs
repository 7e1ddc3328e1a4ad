//! corvid: a verified codec and broker core for the Corvid Wire Protocol (CVWP).
pub mod error;
pub mod filter;
pub mod util;
pub mod config;
pub mod wire;
pub mod proto;
pub mod query;
pub mod parser;
pub mod flow;
pub mod io;
pub mod text;
pub mod net;
pub mod reassembly;
pub mod report;
pub mod schema;
pub mod keyed;
pub mod metrics;
pub mod session;
pub mod snapshot;
pub mod inspect;
pub mod decode;
pub mod store;
pub mod pipeline;
