//! An ingestion pipeline: a broker fed with single streams or whole capture
//! files, and an optional record filter that counts the flows it keeps.

use vstd::prelude::*;

use crate::config::{config_ok, Config};
use crate::error::{Error, Kind};
use crate::filter::{spec_compile, spec_matches, Filter};
use crate::flow::FlowRecord;
use crate::io::capture::{cap_header_ok, rec_view, spec_read_all, CaptureRecord};
use crate::io::CaptureReader;
use crate::parser::frame::{spec_parse_all, FrameConfig};
use crate::session::broker::{sat_inc, sat_plus};
use crate::session::Broker;

verus! {

pub struct Pipeline {
    broker: Broker,
    filter: Option<Filter>,
    streams_in: u64,
    matched: u64,
}

/// Whether `r` passes an optional filter (no filter keeps everything).
pub open spec fn keeps(f: Option<Filter>, r: FlowRecord) -> bool {
    match f {
        Some(f) => spec_matches(f, r),
        None => true,
    }
}

impl Pipeline {
    pub closed spec fn wf(&self) -> bool {
        self.broker.wf()
    }

    /// Streams fed in so far (saturating).
    pub closed spec fn spec_streams_in(&self) -> u64 {
        self.streams_in
    }

    /// Records that passed the filter so far (saturating).
    pub closed spec fn spec_matched(&self) -> u64 {
        self.matched
    }

    pub closed spec fn spec_filter(&self) -> Option<Filter> {
        self.filter
    }

    /// Streams the broker has routed.
    pub closed spec fn spec_routed(&self) -> u64 {
        self.broker.spec_routed()
    }

    pub fn new(cfg: Config) -> (p: Pipeline)
        requires
            config_ok(cfg),
        ensures
            p.wf(),
            p.spec_streams_in() == 0,
            p.spec_matched() == 0,
            p.spec_filter() == None::<Filter>,
            p.spec_routed() == 0,
    {
        Pipeline { broker: Broker::new(cfg), filter: None, streams_in: 0, matched: 0 }
    }

    /// Install the filter compiled from `expr`.
    pub fn with_filter(self, expr: &str) -> (res: Result<Pipeline, Error>)
        requires
            self.wf(),
        ensures
            match spec_compile(expr@) {
                Some(f) => res is Ok && res->Ok_0.wf() && res->Ok_0.spec_filter() == Some(f)
                    && res->Ok_0.spec_streams_in() == self.spec_streams_in() && res->Ok_0.spec_matched()
                    == self.spec_matched() && res->Ok_0.spec_routed() == self.spec_routed(),
                None => res is Err && res->Err_0.kind == Kind::Malformed,
            },
    {
        let f = Filter::compile(expr)?;
        let mut p = self;
        p.filter = Some(f);
        Ok(p)
    }

    pub fn streams_in(&self) -> (n: u64)
        ensures
            n == self.spec_streams_in(),
    {
        self.streams_in
    }

    pub fn matched(&self) -> (n: u64)
        ensures
            n == self.spec_matched(),
    {
        self.matched
    }

    /// Feed a single CVWP stream tagged with a transport id; the result is the
    /// broker's.
    pub fn feed_stream(&mut self, transport_id: u32, stream: &[u8]) -> (res: Result<(), Error>)
        requires
            old(self).wf(),
        ensures
            final(self).wf(),
            final(self).spec_streams_in() == sat_inc(old(self).spec_streams_in()),
            final(self).spec_routed() == sat_inc(old(self).spec_routed()),
            final(self).spec_matched() == old(self).spec_matched(),
            final(self).spec_filter() == old(self).spec_filter(),
            spec_parse_all(stream@, FrameConfig::spec_default()) matches Err((k, _)) ==> res is Err
                && res->Err_0.kind == k,
            spec_parse_all(stream@, FrameConfig::spec_default()) is Ok && res is Err ==> res->Err_0.kind
                == Kind::Limit,
    {
        self.streams_in = if self.streams_in == u64::MAX { u64::MAX } else { self.streams_in + 1 };
        self.broker.route(transport_id, stream)
    }

    /// Feed every stream of a capture file, under transport ids 1, 2, ...
    /// (wrapping). A stream that fails inside a capture does not fail the
    /// capture; a capture file that does not read fails before any stream is
    /// fed.
    pub fn feed_capture(&mut self, data: &[u8]) -> (res: Result<(), Error>)
        requires
            old(self).wf(),
        ensures
            final(self).wf(),
            final(self).spec_matched() == old(self).spec_matched(),
            final(self).spec_filter() == old(self).spec_filter(),
            !cap_header_ok(data@) ==> res is Err && res->Err_0.kind == Kind::Malformed && final(self).spec_streams_in()
                == old(self).spec_streams_in() && final(self).spec_routed() == old(self).spec_routed(),
            cap_header_ok(data@) ==> match spec_read_all(data@.skip(8), 8388608) {
                Ok(rs) => res is Ok && final(self).spec_streams_in() == sat_plus(old(self).spec_streams_in(), rs.len())
                    && final(self).spec_routed() == sat_plus(old(self).spec_routed(), rs.len()),
                Err(k) => res is Err && res->Err_0.kind == k && final(self).spec_streams_in()
                    == old(self).spec_streams_in() && final(self).spec_routed() == old(self).spec_routed(),
            },
    {
        let reader = CaptureReader::open(data)?;
        let recs = reader.read_all()?;
        let ghost n = recs@.len();
        let mut tid: u32 = 0;
        let mut i: usize = 0;
        while i < recs.len()
            invariant
                i <= recs@.len(),
                self.wf(),
                self.matched == old(self).matched,
                self.filter == old(self).filter,
                self.streams_in == sat_plus(old(self).streams_in, i as nat),
                self.broker.spec_routed() == sat_plus(old(self).broker.spec_routed(), i as nat),
            decreases recs@.len() - i,
        {
            tid = tid.wrapping_add(1);
            self.streams_in = if self.streams_in == u64::MAX { u64::MAX } else { self.streams_in + 1 };
            let _ = self.broker.route(tid, recs[i].stream.as_slice());
            i = i + 1;
        }
        proof {
            assert(recs@.map_values(|r: CaptureRecord| rec_view(r)).len() == recs@.len());
        }
        Ok(())
    }

    /// Count a flow record that passes the filter.
    pub fn observe(&mut self, rec: &FlowRecord)
        requires
            old(self).wf(),
        ensures
            final(self).wf(),
            final(self).spec_matched() == (if keeps(old(self).spec_filter(), *rec) {
                sat_inc(old(self).spec_matched())
            } else {
                old(self).spec_matched()
            }),
            final(self).spec_streams_in() == old(self).spec_streams_in(),
            final(self).spec_routed() == old(self).spec_routed(),
            final(self).spec_filter() == old(self).spec_filter(),
    {
        let keep = match &self.filter {
            Some(f) => f.matches(rec),
            None => true,
        };
        if keep {
            self.matched = if self.matched == u64::MAX { u64::MAX } else { self.matched + 1 };
        }
    }
}

} // verus!
