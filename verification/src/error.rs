//! The library's error type.

use vstd::prelude::*;

verus! {

/// Broad error classification.
#[derive(Debug, Clone, Copy, PartialEq, Eq, Structural)]
pub enum Kind {
    /// Input bytes or text do not follow the format.
    Malformed,
    /// A configured or protocol limit would be exceeded.
    Limit,
    /// A message arrived in a session state that does not allow it.
    Protocol,
    /// A message referenced something (template, flow, stream) that does not exist.
    Unresolved,
}

impl Kind {
    /// Whether a session may keep processing a stream after a message failed
    /// with this kind. Only limit violations abort the stream.
    pub fn is_recoverable(self) -> (b: bool)
        ensures
            b == (self != Kind::Limit),
    {
        match self {
            Kind::Limit => false,
            _ => true,
        }
    }
}

/// An error: its kind, a static description and an optional numeric context
/// (the offending length, count, code or offset).
#[derive(Debug, Clone, Copy)]
pub struct Error {
    pub kind: Kind,
    pub what: &'static str,
    pub context: Option<u64>,
}

impl Error {
    pub fn malformed(what: &'static str) -> (e: Error)
        ensures
            e.kind == Kind::Malformed,
            e.what == what,
            e.context is None,
    {
        Error { kind: Kind::Malformed, what, context: None }
    }

    pub fn limit(what: &'static str) -> (e: Error)
        ensures
            e.kind == Kind::Limit,
            e.what == what,
            e.context is None,
    {
        Error { kind: Kind::Limit, what, context: None }
    }

    pub fn protocol(what: &'static str) -> (e: Error)
        ensures
            e.kind == Kind::Protocol,
            e.what == what,
            e.context is None,
    {
        Error { kind: Kind::Protocol, what, context: None }
    }

    pub fn unresolved(what: &'static str) -> (e: Error)
        ensures
            e.kind == Kind::Unresolved,
            e.what == what,
            e.context is None,
    {
        Error { kind: Kind::Unresolved, what, context: None }
    }

    /// Attach a numeric context value.
    pub fn with_context(self, context: u64) -> (e: Error)
        ensures
            e.kind == self.kind,
            e.what == self.what,
            e.context == Some(context),
    {
        Error { kind: self.kind, what: self.what, context: Some(context) }
    }

    pub fn kind(&self) -> (k: Kind)
        ensures
            k == self.kind,
    {
        self.kind
    }
}

} // verus!
