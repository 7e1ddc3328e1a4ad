//! Cross-subsystem resource quotas.
//!
//! A session touches several unbounded-by-default collections (schemas,
//! templates, flows, modules, open streams). The limit tracker gives the
//! session one place to enforce ceilings and to report how close it is to each,
//! so a hostile stream cannot exhaust memory by, say, defining a million
//! one-field schemas.

use vstd::prelude::*;

verus! {

#[derive(Debug, Clone, Copy)]
pub struct Limits {
    pub max_schemas: u32,
    pub max_templates: u32,
    pub max_flows: u32,
    pub max_modules: u32,
    pub max_streams: u32,
    pub max_total_bytes: u64,
}

impl Default for Limits {
    fn default() -> (l: Limits)
        ensures
            l == (Limits {
                max_schemas: 4096,
                max_templates: 4096,
                max_flows: 1048576,
                max_modules: 256,
                max_streams: 4096,
                max_total_bytes: 4294967296,
            }),
    {
        Limits {
            max_schemas: 4096,
            max_templates: 4096,
            max_flows: 1048576,
            max_modules: 256,
            max_streams: 4096,
            max_total_bytes: 4294967296,
        }
    }
}

#[derive(Debug, Clone, Copy, PartialEq, Eq, Structural)]
pub enum Resource {
    Schemas,
    Templates,
    Flows,
    Modules,
    Streams,
    Bytes,
}

#[derive(Debug, Clone, Copy)]
struct Usage {
    schemas: u32,
    templates: u32,
    flows: u32,
    modules: u32,
    streams: u32,
    bytes: u64,
}

pub struct LimitTracker {
    limits: Limits,
    usage: Usage,
    denials: u64,
}

/// The ceiling for a resource.
pub open spec fn limit_of(l: Limits, r: Resource) -> int {
    match r {
        Resource::Schemas => l.max_schemas as int,
        Resource::Templates => l.max_templates as int,
        Resource::Flows => l.max_flows as int,
        Resource::Modules => l.max_modules as int,
        Resource::Streams => l.max_streams as int,
        Resource::Bytes => l.max_total_bytes as int,
    }
}

/// `a + b` clamped to `u64::MAX`.
pub open spec fn sat64(a: int, b: int) -> int {
    if a + b > u64::MAX { u64::MAX as int } else { a + b }
}

impl LimitTracker {
    /// Units of `r` in use.
    pub closed spec fn usage(&self, r: Resource) -> int {
        match r {
            Resource::Schemas => self.usage.schemas as int,
            Resource::Templates => self.usage.templates as int,
            Resource::Flows => self.usage.flows as int,
            Resource::Modules => self.usage.modules as int,
            Resource::Streams => self.usage.streams as int,
            Resource::Bytes => self.usage.bytes as int,
        }
    }

    /// No resource is used beyond its ceiling. A new tracker holds this, and
    /// acquiring and releasing keep it, so every tracker reached that way
    /// holds it.
    pub open spec fn within_limits(&self) -> bool {
        forall|r: Resource| #[trigger] self.usage(r) <= limit_of(self.spec_limits(), r)
    }

    pub closed spec fn spec_limits(&self) -> Limits {
        self.limits
    }

    pub closed spec fn spec_denials(&self) -> u64 {
        self.denials
    }

    pub fn new(limits: Limits) -> (t: LimitTracker)
        ensures
            t.spec_limits() == limits,
            t.spec_denials() == 0,
            forall|r: Resource| #[trigger] t.usage(r) == 0,
            t.within_limits(),
    {
        LimitTracker {
            limits,
            usage: Usage { schemas: 0, templates: 0, flows: 0, modules: 0, streams: 0, bytes: 0 },
            denials: 0,
        }
    }

    /// Number of refused acquisitions (saturating).
    pub fn denials(&self) -> (n: u64)
        ensures
            n == self.spec_denials(),
    {
        self.denials
    }

    /// Try to acquire `n` units of `resource`: granted when the usage plus `n`
    /// (saturating) stays within the ceiling; otherwise nothing changes but a
    /// denial is recorded.
    pub fn acquire(&mut self, resource: Resource, n: u64) -> (ok: bool)
        ensures
            final(self).spec_limits() == old(self).spec_limits(),
            ok == (sat64(old(self).usage(resource), n as int) <= limit_of(old(self).spec_limits(), resource)),
            ok ==> final(self).usage(resource) == sat64(old(self).usage(resource), n as int) && final(self).spec_denials()
                == old(self).spec_denials(),
            !ok ==> final(self).usage(resource) == old(self).usage(resource) && final(self).spec_denials() == (if old(
                self,
            ).spec_denials() == u64::MAX {
                u64::MAX
            } else {
                (old(self).spec_denials() + 1) as u64
            }),
            forall|r: Resource| r != resource ==> #[trigger] final(self).usage(r) == old(self).usage(r),
            old(self).within_limits() ==> final(self).within_limits(),
    {
        let ok = match resource {
            Resource::Schemas => try_add32(&mut self.usage.schemas, n, self.limits.max_schemas),
            Resource::Templates => try_add32(&mut self.usage.templates, n, self.limits.max_templates),
            Resource::Flows => try_add32(&mut self.usage.flows, n, self.limits.max_flows),
            Resource::Modules => try_add32(&mut self.usage.modules, n, self.limits.max_modules),
            Resource::Streams => try_add32(&mut self.usage.streams, n, self.limits.max_streams),
            Resource::Bytes => {
                let next = self.usage.bytes.saturating_add(n);
                if next > self.limits.max_total_bytes {
                    false
                } else {
                    self.usage.bytes = next;
                    true
                }
            },
        };
        if !ok {
            self.denials = if self.denials == u64::MAX { u64::MAX } else { self.denials + 1 };
        }
        proof {
            if old(self).within_limits() {
                assert forall|r: Resource| #[trigger] self.usage(r) <= limit_of(self.spec_limits(), r) by {
                    assert(old(self).usage(r) <= limit_of(old(self).spec_limits(), r));
                }
            }
        }
        ok
    }

    /// Give back `n` units of `resource`; the usage stops at zero.
    pub fn release(&mut self, resource: Resource, n: u64)
        ensures
            final(self).spec_limits() == old(self).spec_limits(),
            final(self).spec_denials() == old(self).spec_denials(),
            final(self).usage(resource) == (if old(self).usage(resource) >= n {
                old(self).usage(resource) - n
            } else {
                0
            }),
            forall|r: Resource| r != resource ==> #[trigger] final(self).usage(r) == old(self).usage(r),
            old(self).within_limits() ==> final(self).within_limits(),
    {
        match resource {
            Resource::Schemas => sub32(&mut self.usage.schemas, n),
            Resource::Templates => sub32(&mut self.usage.templates, n),
            Resource::Flows => sub32(&mut self.usage.flows, n),
            Resource::Modules => sub32(&mut self.usage.modules, n),
            Resource::Streams => sub32(&mut self.usage.streams, n),
            Resource::Bytes => self.usage.bytes = self.usage.bytes.saturating_sub(n),
        }
        proof {
            if old(self).within_limits() {
                assert forall|r: Resource| #[trigger] self.usage(r) <= limit_of(self.spec_limits(), r) by {
                    assert(old(self).usage(r) <= limit_of(old(self).spec_limits(), r));
                }
            }
        }
    }

    /// Units of `resource` in use.
    pub fn current(&self, resource: Resource) -> (n: u64)
        ensures
            n == self.usage(resource),
    {
        match resource {
            Resource::Schemas => self.usage.schemas as u64,
            Resource::Templates => self.usage.templates as u64,
            Resource::Flows => self.usage.flows as u64,
            Resource::Modules => self.usage.modules as u64,
            Resource::Streams => self.usage.streams as u64,
            Resource::Bytes => self.usage.bytes,
        }
    }

    /// Units of `resource` in use together with its ceiling: the two numbers
    /// whose quotient is the resource's pressure.
    pub fn usage_and_limit(&self, resource: Resource) -> (p: (u64, u64))
        ensures
            p.0 == self.usage(resource),
            p.1 == limit_of(self.spec_limits(), resource),
    {
        let cur = self.current(resource);
        let max: u64 = match resource {
            Resource::Schemas => self.limits.max_schemas as u64,
            Resource::Templates => self.limits.max_templates as u64,
            Resource::Flows => self.limits.max_flows as u64,
            Resource::Modules => self.limits.max_modules as u64,
            Resource::Streams => self.limits.max_streams as u64,
            Resource::Bytes => self.limits.max_total_bytes,
        };
        (cur, max)
    }
}

fn try_add32(slot: &mut u32, n: u64, max: u32) -> (ok: bool)
    ensures
        ok == (sat64(*old(slot) as int, n as int) <= max),
        ok ==> *final(slot) == *old(slot) + n,
        !ok ==> *final(slot) == *old(slot),
{
    let next = (*slot as u64).saturating_add(n);
    if next > max as u64 {
        false
    } else {
        *slot = next as u32;
        true
    }
}

fn sub32(slot: &mut u32, n: u64)
    ensures
        *final(slot) == (if *old(slot) >= n { *old(slot) - n } else { 0 }),
{
    *slot = if (*slot as u64) >= n { ((*slot as u64) - n) as u32 } else { 0 };
}

} // verus!
