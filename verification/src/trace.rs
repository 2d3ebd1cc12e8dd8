//! The trace witness: an ordered, bounded sequence of (binary, address)
//! steps reconstructed for an accepted finding, for reporting only.

use vstd::prelude::*;

verus! {

/// A concrete path witness: parallel lists of step binaries and step
/// addresses, earliest step first.
#[derive(Debug)]
pub struct Trace {
    pub names: Vec<String>,
    pub addrs: Vec<u64>,
}

/// A well-formed trace pairs every binary with exactly one address.
pub open spec fn trace_wf(t: Trace) -> bool {
    t.names@.len() == t.addrs@.len()
}

impl Trace {
    /// Appends one step.
    pub fn push(&mut self, name: String, addr: u64)
        ensures
            final(self).names@ == old(self).names@.push(name),
            final(self).addrs@ == old(self).addrs@.push(addr),
    {
        self.names.push(name);
        self.addrs.push(addr);
    }

    /// The empty trace.
    pub fn nil() -> (r: Trace)
        ensures
            r.names@.len() == 0,
            r.addrs@.len() == 0,
            trace_wf(r),
    {
        Self::load(Vec::new(), Vec::new())
    }

    /// A one-step trace.
    pub fn new(name: String, addr: u64) -> (r: Trace)
        ensures
            r.names@.len() == 1,
            r.names@[0] == name,
            r.addrs@ =~= seq![addr],
            trace_wf(r),
    {
        let mut names: Vec<String> = Vec::new();
        names.push(name);
        let mut addrs: Vec<u64> = Vec::new();
        addrs.push(addr);
        Self::load(names, addrs)
    }

    /// Builds a trace from its plain columns.
    pub fn load(names: Vec<String>, addrs: Vec<u64>) -> (r: Trace)
        ensures
            r.names@ == names@,
            r.addrs@ == addrs@,
    {
        Trace { names, addrs }
    }

    /// The number of steps.
    pub fn len(&self) -> (r: usize)
        ensures
            r == self.names@.len(),
    {
        self.names.len()
    }
}

/// Validates raw trace data from the store boundary: the two columns must
/// pair up step for step.
#[derive(Clone, Copy, Debug, PartialEq, Eq, Structural)]
pub struct TraceType;

impl TraceType {
    /// The relation-column name this type is stored under.
    pub fn name(&self) -> (r: &'static str)
        ensures
            r@ == "trace"@,
    {
        "trace"
    }

    /// Rebuilds a trace from its plain columns; rejects mismatched step
    /// counts.
    pub fn extract(&self, names: Vec<String>, addrs: Vec<u64>) -> (r: Option<Trace>)
        ensures
            match r {
                Some(t) => trace_wf(t) && t.names@ == names@ && t.addrs@ == addrs@,
                None => names@.len() != addrs@.len(),
            },
    {
        if names.len() == addrs.len() {
            Some(Trace::load(names, addrs))
        } else {
            None
        }
    }
}

} // verus!
