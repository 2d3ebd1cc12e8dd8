//! An upper set of addresses: either an explicit finite set of resolved
//! targets, or top, meaning the transfer could not be resolved and must be
//! treated as able to reach anywhere.

use vstd::prelude::*;

verus! {

/// Either every address (`Top`), or exactly the listed addresses.
#[derive(Clone, Debug)]
pub enum UpperBVSet {
    Top,
    BVSet(Vec<u64>),
}

impl UpperBVSet {
    /// Whether `addr` is a member; every address is a member of `Top`.
    pub open spec fn spec_contains(self, addr: u64) -> bool {
        match self {
            UpperBVSet::Top => true,
            UpperBVSet::BVSet(bvs) => bvs@.contains(addr),
        }
    }

    /// Membership test.
    pub fn contains(&self, addr: u64) -> (r: bool)
        ensures
            r == self.spec_contains(addr),
    {
        match self {
            UpperBVSet::Top => true,
            UpperBVSet::BVSet(bvs) => contains_u64(bvs, addr),
        }
    }
}

/// Linear membership scan over a vector of addresses.
pub fn contains_u64(v: &Vec<u64>, x: u64) -> (r: bool)
    ensures
        r == v@.contains(x),
{
    let n = v.len();
    for i in 0..n
        invariant
            n == v.len(),
            forall|j: int| 0 <= j < i ==> v@[j] != x,
    {
        if v[i] == x {
            assert(v@[i as int] == x);
            return true;
        }
    }
    assert(forall|j: int| 0 <= j < v@.len() ==> v@[j] != x);
    false
}

/// Validates raw data from the store boundary into an upper set: absence
/// of an explicit list means `Top`.
#[derive(Clone, Copy, Debug, PartialEq, Eq, Structural)]
pub struct UBVSType;

impl UBVSType {
    /// The relation-column name this type is stored under.
    pub fn name(&self) -> (r: &'static str)
        ensures
            r@ == "ubvs"@,
    {
        "ubvs"
    }

    /// Rebuilds an upper set from its plain representation.
    pub fn extract(&self, raw: Option<Vec<u64>>) -> (r: UpperBVSet)
        ensures
            raw is None ==> r == UpperBVSet::Top,
            raw matches Some(bvs) ==> (r matches UpperBVSet::BVSet(out) && out@ == bvs@),
    {
        match raw {
            None => UpperBVSet::Top,
            Some(bvs) => UpperBVSet::BVSet(bvs),
        }
    }
}

} // verus!
