//! A plain list of addresses, used wherever a relation column carries an
//! ordered sequence of code addresses.

use vstd::prelude::*;

verus! {

/// An ordered list of addresses.
#[derive(Debug)]
pub struct BVList(pub Vec<u64>);

impl BVList {
    /// Copies the list.
    pub fn duplicate(&self) -> (r: BVList)
        ensures
            r.0@ == self.0@,
    {
        let mut out: Vec<u64> = Vec::new();
        let n = self.0.len();
        for i in 0..n
            invariant
                n == self.0.len(),
                out@ =~= self.0@.take(i as int),
        {
            out.push(self.0[i]);
            proof {
                assert(self.0@.take(i + 1) =~= self.0@.take(i as int).push(self.0@[i as int]));
            }
        }
        proof {
            assert(self.0@.take(n as int) =~= self.0@);
        }
        BVList(out)
    }
}

/// Validates raw address-list data from the store boundary.
#[derive(Clone, Copy, Debug, PartialEq, Eq, Structural)]
pub struct BVListType;

impl BVListType {
    /// The relation-column name this type is stored under.
    pub fn name(&self) -> (r: &'static str)
        ensures
            r@ == "bvlist"@,
    {
        "bvlist"
    }

    /// Wraps a plain address vector.
    pub fn extract(&self, raw: Vec<u64>) -> (r: BVList)
        ensures
            r.0@ == raw@,
    {
        BVList(raw)
    }
}

} // verus!
