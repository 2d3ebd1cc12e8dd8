//! The materialized call stack: the binary names and return addresses of
//! the frames a context id stands for, outermost first.

use vstd::prelude::*;
use crate::bvlist::BVList;

verus! {

/// A call stack as a value: parallel lists of frame binaries and frame
/// return addresses.
#[derive(Debug)]
pub struct Stack(pub Vec<String>, pub BVList);

/// A well-formed stack pairs every binary with exactly one address.
pub open spec fn stack_value_wf(s: Stack) -> bool {
    s.0@.len() == s.1.0@.len()
}

impl Stack {
    /// The empty stack.
    pub fn empty() -> (r: Stack)
        ensures
            stack_value_wf(r),
            r.0@.len() == 0,
    {
        Stack(Vec::new(), BVList(Vec::new()))
    }

    /// The number of frames.
    pub fn depth(&self) -> (r: usize)
        ensures
            r == self.0@.len(),
    {
        self.0.len()
    }
}

/// Validates raw stack data from the store boundary: the two columns must
/// pair up frame for frame.
#[derive(Clone, Copy, Debug, PartialEq, Eq, Structural)]
pub struct StackType;

impl StackType {
    /// The relation-column name this type is stored under.
    pub fn name(&self) -> (r: &'static str)
        ensures
            r@ == "stack"@,
    {
        "stack"
    }

    /// Rebuilds a stack from its plain columns; rejects mismatched frame
    /// counts.
    pub fn extract(&self, names: Vec<String>, addrs: Vec<u64>) -> (r: Option<Stack>)
        ensures
            match r {
                Some(s) => stack_value_wf(s) && s.0@ == names@ && s.1.0@ == addrs@,
                None => names@.len() != addrs@.len(),
            },
    {
        if names.len() == addrs.len() {
            Some(Stack(names, BVList(addrs)))
        } else {
            None
        }
    }
}

} // verus!
