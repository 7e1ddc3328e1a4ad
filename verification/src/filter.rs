//! Record filters: a single comparison of a flow field against a number,
//! written `<field> <op> <value>` (for example `octets >= 100`).
//!
//! Fields: `octets`, `packets`, `records`, `duration`, `flow`. Operators:
//! `==`, `!=`, `<`, `<=`, `>`, `>=`. Whitespace around the parts is ignored.

use vstd::prelude::*;

use crate::error::{Error, Kind};
use crate::flow::FlowRecord;
use crate::text::{chars_of, parse_dec, spec_dec, spec_trim, trim};

verus! {

#[derive(Debug, Clone, Copy, PartialEq, Eq, Structural)]
pub enum FilterField {
    Octets,
    Packets,
    Records,
    Duration,
    FlowId,
}

#[derive(Debug, Clone, Copy, PartialEq, Eq, Structural)]
pub enum CmpOp {
    Eq,
    Ne,
    Lt,
    Le,
    Gt,
    Ge,
}

#[derive(Debug, Clone, Copy, PartialEq, Eq, Structural)]
pub struct Filter {
    pub field: FilterField,
    pub op: CmpOp,
    pub value: u64,
}

/// The value of a field of a record (`duration` is last minus first seen,
/// stopping at zero).
pub open spec fn field_value(f: FilterField, r: FlowRecord) -> u64 {
    match f {
        FilterField::Octets => r.octets,
        FilterField::Packets => r.packets,
        FilterField::Records => r.records,
        FilterField::Duration => if r.last_ms >= r.first_ms { (r.last_ms - r.first_ms) as u64 } else { 0 },
        FilterField::FlowId => r.key.flow_id as u64,
    }
}

pub open spec fn spec_cmp(op: CmpOp, a: u64, b: u64) -> bool {
    match op {
        CmpOp::Eq => a == b,
        CmpOp::Ne => a != b,
        CmpOp::Lt => a < b,
        CmpOp::Le => a <= b,
        CmpOp::Gt => a > b,
        CmpOp::Ge => a >= b,
    }
}

pub open spec fn spec_matches(f: Filter, r: FlowRecord) -> bool {
    spec_cmp(f.op, field_value(f.field, r), f.value)
}

pub open spec fn is_op_char(c: char) -> bool {
    c == '=' || c == '!' || c == '<' || c == '>'
}

/// Index of the first operator character of `t`, or its length.
pub open spec fn op_start(t: Seq<char>, i: int) -> int
    decreases t.len() - i,
{
    if i >= t.len() || i < 0 {
        t.len() as int
    } else if is_op_char(t[i]) {
        i
    } else {
        op_start(t, i + 1)
    }
}

pub open spec fn field_named(n: Seq<char>) -> Option<FilterField> {
    if n == "octets"@ {
        Some(FilterField::Octets)
    } else if n == "packets"@ {
        Some(FilterField::Packets)
    } else if n == "records"@ {
        Some(FilterField::Records)
    } else if n == "duration"@ {
        Some(FilterField::Duration)
    } else if n == "flow"@ {
        Some(FilterField::FlowId)
    } else {
        None
    }
}

/// The operator at the front of `r` and its length.
pub open spec fn op_at(r: Seq<char>) -> Option<(CmpOp, int)> {
    if r.len() >= 2 && r[1] == '=' {
        if r[0] == '=' {
            Some((CmpOp::Eq, 2))
        } else if r[0] == '!' {
            Some((CmpOp::Ne, 2))
        } else if r[0] == '<' {
            Some((CmpOp::Le, 2))
        } else if r[0] == '>' {
            Some((CmpOp::Ge, 2))
        } else {
            None
        }
    } else if r.len() >= 1 && r[0] == '<' {
        Some((CmpOp::Lt, 1))
    } else if r.len() >= 1 && r[0] == '>' {
        Some((CmpOp::Gt, 1))
    } else {
        None
    }
}

/// The filter an expression denotes, if it is one.
pub open spec fn spec_compile(s: Seq<char>) -> Option<Filter> {
    let k = op_start(s, 0);
    match (field_named(spec_trim(s.take(k))), op_at(s.skip(k))) {
        (Some(f), Some((op, n))) => match spec_dec(spec_trim(s.skip(k + n))) {
            Some(v) => if v <= u64::MAX { Some(Filter { field: f, op, value: v as u64 }) } else { None },
            None => None,
        },
        _ => None,
    }
}

/// Whether `t` spells the literal `lit`.
fn eq_lit(t: &[char], lit: &str) -> (b: bool)
    ensures
        b == (t@ == lit@),
{
    let l = chars_of(lit);
    if t.len() != l.len() {
        return false;
    }
    let mut i: usize = 0;
    while i < t.len()
        invariant
            i <= t@.len(),
            t@.len() == l@.len(),
            l@ == lit@,
            forall|j: int| 0 <= j < i ==> t@[j] == l@[j],
        decreases t@.len() - i,
    {
        if t[i] != l[i] {
            return false;
        }
        i = i + 1;
    }
    assert(t@ =~= l@);
    true
}

impl Filter {
    /// Compile `<field> <op> <value>`.
    pub fn compile(expr: &str) -> (res: Result<Filter, Error>)
        ensures
            match spec_compile(expr@) {
                Some(f) => res == Ok::<Filter, Error>(f),
                None => res is Err && res->Err_0.kind == Kind::Malformed,
            },
    {
        let s = chars_of(expr);
        let mut k: usize = 0;
        while k < s.len() && !(s[k] == '=' || s[k] == '!' || s[k] == '<' || s[k] == '>')
            invariant
                k <= s@.len(),
                op_start(s@, 0) == op_start(s@, k as int),
            decreases s@.len() - k,
        {
            k = k + 1;
        }
        let name = trim(&s.as_slice()[0..k]);
        assert(s@.subrange(0, k as int) =~= s@.take(k as int));
        let field = if eq_lit(name.as_slice(), "octets") {
            FilterField::Octets
        } else if eq_lit(name.as_slice(), "packets") {
            FilterField::Packets
        } else if eq_lit(name.as_slice(), "records") {
            FilterField::Records
        } else if eq_lit(name.as_slice(), "duration") {
            FilterField::Duration
        } else if eq_lit(name.as_slice(), "flow") {
            FilterField::FlowId
        } else {
            return Err(Error::malformed("unknown filter field"));
        };
        let rest = &s.as_slice()[k..s.len()];
        assert(rest@ =~= s@.skip(k as int));
        let (op, n): (CmpOp, usize) = if rest.len() >= 2 && rest[1] == '=' {
            if rest[0] == '=' {
                (CmpOp::Eq, 2)
            } else if rest[0] == '!' {
                (CmpOp::Ne, 2)
            } else if rest[0] == '<' {
                (CmpOp::Le, 2)
            } else if rest[0] == '>' {
                (CmpOp::Ge, 2)
            } else {
                return Err(Error::malformed("unknown filter operator"));
            }
        } else if rest.len() >= 1 && rest[0] == '<' {
            (CmpOp::Lt, 1)
        } else if rest.len() >= 1 && rest[0] == '>' {
            (CmpOp::Gt, 1)
        } else {
            return Err(Error::malformed("unknown filter operator"));
        };
        let vtext = trim(&rest[n..rest.len()]);
        assert(rest@.subrange(n as int, rest@.len() as int) =~= s@.skip(k + n));
        match parse_dec(vtext.as_slice(), u64::MAX) {
            Some(v) => Ok(Filter { field, op, value: v }),
            None => Err(Error::malformed("bad filter value")),
        }
    }

    /// Whether a record passes the filter.
    pub fn matches(&self, r: &FlowRecord) -> (b: bool)
        ensures
            b == spec_matches(*self, *r),
    {
        let v = match self.field {
            FilterField::Octets => r.octets,
            FilterField::Packets => r.packets,
            FilterField::Records => r.records,
            FilterField::Duration => if r.last_ms >= r.first_ms { r.last_ms - r.first_ms } else { 0 },
            FilterField::FlowId => r.key.flow_id as u64,
        };
        match self.op {
            CmpOp::Eq => v == self.value,
            CmpOp::Ne => v != self.value,
            CmpOp::Lt => v < self.value,
            CmpOp::Le => v <= self.value,
            CmpOp::Gt => v > self.value,
            CmpOp::Ge => v >= self.value,
        }
    }
}

} // verus!
