//! The chop: a bounded set of distinct call-target addresses visited along
//! one analysis branch. Its capacity is three; a branch that would need a
//! fourth distinct target is discarded rather than widened.

use vstd::prelude::*;

verus! {

/// How many distinct call targets one branch may traverse.
pub const MAX_CHOP: u64 = 3;

/// A chop holds at most three distinct addresses, in its first `count`
/// slots, sorted ascending. Unused slots are zero.
#[derive(Clone, Copy, Debug, PartialEq, Eq, Structural)]
pub struct Chop {
    pub count: u8,
    pub s0: u64,
    pub s1: u64,
    pub s2: u64,
}

/// The members of a chop, in slot order. The view never exceeds three
/// elements, whatever the fields hold.
pub open spec fn chop_view(c: Chop) -> Seq<u64> {
    if c.count == 0 {
        Seq::empty()
    } else if c.count == 1 {
        seq![c.s0]
    } else if c.count == 2 {
        seq![c.s0, c.s1]
    } else {
        seq![c.s0, c.s1, c.s2]
    }
}

/// A well-formed chop: within capacity, sorted strictly ascending (hence
/// distinct), unused slots zero.
pub open spec fn chop_wf(c: Chop) -> bool {
    &&& c.count <= 3
    &&& (c.count >= 2 ==> c.s0 < c.s1)
    &&& (c.count >= 3 ==> c.s1 < c.s2)
    &&& (c.count < 1 ==> c.s0 == 0)
    &&& (c.count < 2 ==> c.s1 == 0)
    &&& (c.count < 3 ==> c.s2 == 0)
}

/// The chop bound: no chop ever holds more than three addresses.
pub proof fn lemma_chop_bound(c: Chop)
    ensures
        chop_view(c).len() <= 3,
{
}

/// The chop after admitting one more distinct target, when capacity
/// allows it: the member set grows by the target and stays sorted.
pub open spec fn chop_insert_spec(c: Chop, f: u64) -> Chop {
    if c.count == 0 {
        Chop { count: 1, s0: f, s1: 0, s2: 0 }
    } else if c.count == 1 {
        if f < c.s0 {
            Chop { count: 2, s0: f, s1: c.s0, s2: 0 }
        } else {
            Chop { count: 2, s0: c.s0, s1: f, s2: 0 }
        }
    } else {
        if f < c.s0 {
            Chop { count: 3, s0: f, s1: c.s0, s2: c.s1 }
        } else if f < c.s1 {
            Chop { count: 3, s0: c.s0, s1: f, s2: c.s1 }
        } else {
            Chop { count: 3, s0: c.s0, s1: c.s1, s2: f }
        }
    }
}

/// What `check` yields: the chop itself on a repeated target, the grown
/// chop on a fresh target within capacity, and nothing otherwise.
pub open spec fn chop_check_spec(c: Chop, f: u64) -> Seq<Chop> {
    if chop_view(c).contains(f) {
        seq![c]
    } else if c.count < 3 {
        seq![chop_insert_spec(c, f)]
    } else {
        Seq::empty()
    }
}

impl Chop {
    /// The empty chop.
    pub fn new() -> (r: Chop)
        ensures
            r == (Chop { count: 0, s0: 0, s1: 0, s2: 0 }),
            chop_wf(r),
            chop_view(r) =~= Seq::<u64>::empty(),
    {
        Chop { count: 0, s0: 0, s1: 0, s2: 0 }
    }

    /// Membership test.
    pub fn contains(&self, f: u64) -> (r: bool)
        ensures
            r == chop_view(*self).contains(f),
    {
        if self.count >= 1 && self.s0 == f {
            assert(chop_view(*self)[0] == f);
            return true;
        }
        if self.count >= 2 && self.s1 == f {
            assert(chop_view(*self)[1] == f);
            return true;
        }
        if self.count >= 3 && self.s2 == f {
            assert(chop_view(*self)[2] == f);
            return true;
        }
        false
    }

    /// Attempts to add a call target to the branch's chop: a target
    /// already in the chop changes nothing; a fresh target is admitted
    /// only while the chop is within capacity; a fourth distinct target
    /// yields no chop at all, pruning the branch.
    pub fn check(&self, func: u64) -> (r: Vec<Chop>)
        requires
            chop_wf(*self),
        ensures
            r@ =~= chop_check_spec(*self, func),
            forall|i: int| 0 <= i < r@.len() ==> chop_wf(#[trigger] r@[i]),
            forall|i: int| 0 <= i < r@.len() ==> chop_view(r@[i]).len() <= 3,
    {
        let mut out: Vec<Chop> = Vec::new();
        if self.contains(func) {
            out.push(*self);
        } else if self.count < 3 {
            let grown = if self.count == 0 {
                Chop { count: 1, s0: func, s1: 0, s2: 0 }
            } else if self.count == 1 {
                if func < self.s0 {
                    Chop { count: 2, s0: func, s1: self.s0, s2: 0 }
                } else {
                    Chop { count: 2, s0: self.s0, s1: func, s2: 0 }
                }
            } else {
                if func < self.s0 {
                    Chop { count: 3, s0: func, s1: self.s0, s2: self.s1 }
                } else if func < self.s1 {
                    Chop { count: 3, s0: self.s0, s1: func, s2: self.s1 }
                } else {
                    Chop { count: 3, s0: self.s0, s1: self.s1, s2: func }
                }
            };
            proof {
                assert(grown == chop_insert_spec(*self, func));
                lemma_chop_insert_members(*self, func);
            }
            out.push(grown);
        }
        out
    }
}

/// A chop that admitted a fresh target keeps its old members, gains the
/// new one, and nothing else.
pub proof fn lemma_chop_insert_members(c: Chop, f: u64)
    requires
        chop_wf(c),
        !chop_view(c).contains(f),
        c.count < 3,
    ensures
        chop_wf(chop_insert_spec(c, f)),
        forall|a: u64| chop_view(chop_insert_spec(c, f)).contains(a) <==> (chop_view(c).contains(a)
            || a == f),
{
    let r = chop_insert_spec(c, f);
    if c.count >= 1 {
        assert(chop_view(c)[0] == c.s0);
    }
    if c.count >= 2 {
        assert(chop_view(c)[1] == c.s1);
    }
    assert forall|a: u64| chop_view(r).contains(a) <==> (chop_view(c).contains(a) || a == f) by {
        if chop_view(r).contains(a) {
            let i = choose|i: int| 0 <= i < chop_view(r).len() && chop_view(r)[i] == a;
            if a != f {
                if c.count == 1 {
                    assert(chop_view(c)[0] == c.s0);
                } else if c.count == 2 {
                    assert(chop_view(c)[0] == c.s0);
                    assert(chop_view(c)[1] == c.s1);
                }
            }
        }
        if chop_view(c).contains(a) {
            let i = choose|i: int| 0 <= i < chop_view(c).len() && chop_view(c)[i] == a;
            assert(chop_view(r).len() == c.count + 1);
            if c.count == 1 {
                assert(a == c.s0);
                if f < c.s0 {
                    assert(chop_view(r)[1] == a);
                } else {
                    assert(chop_view(r)[0] == a);
                }
            } else if c.count == 2 {
                if f < c.s0 {
                    assert(chop_view(r)[1] == c.s0 && chop_view(r)[2] == c.s1);
                } else if f < c.s1 {
                    assert(chop_view(r)[0] == c.s0 && chop_view(r)[2] == c.s1);
                } else {
                    assert(chop_view(r)[0] == c.s0 && chop_view(r)[1] == c.s1);
                }
            }
        }
        if a == f {
            if c.count == 0 {
                assert(chop_view(r)[0] == f);
            } else if c.count == 1 {
                if f < c.s0 {
                    assert(chop_view(r)[0] == f);
                } else {
                    assert(chop_view(r)[1] == f);
                }
            } else {
                if f < c.s0 {
                    assert(chop_view(r)[0] == f);
                } else if f < c.s1 {
                    assert(chop_view(r)[1] == f);
                } else {
                    assert(chop_view(r)[2] == f);
                }
            }
        }
    }
}

/// Validates raw chop data from the store boundary: members must be
/// within capacity, sorted and distinct.
#[derive(Clone, Copy, Debug, PartialEq, Eq, Structural)]
pub struct ChopType;

impl ChopType {
    /// The relation-column name this type is stored under.
    pub fn name(&self) -> (r: &'static str)
        ensures
            r@ == "chop"@,
    {
        "chop"
    }

    /// Rebuilds a chop from a plain member list; rejects lists that are
    /// over capacity, unsorted or repeating.
    pub fn extract(&self, raw: &Vec<u64>) -> (r: Option<Chop>)
        ensures
            match r {
                Some(c) => chop_wf(c) && chop_view(c) =~= raw@,
                None => !(exists|c: Chop| chop_wf(c) && chop_view(c) =~= raw@),
            },
    {
        if raw.len() == 0 {
            let c = Chop { count: 0, s0: 0, s1: 0, s2: 0 };
            assert(chop_view(c) =~= raw@);
            Some(c)
        } else if raw.len() == 1 {
            let c = Chop { count: 1, s0: raw[0], s1: 0, s2: 0 };
            assert(chop_view(c) =~= raw@);
            Some(c)
        } else if raw.len() == 2 {
            if raw[0] < raw[1] {
                let c = Chop { count: 2, s0: raw[0], s1: raw[1], s2: 0 };
                assert(chop_view(c) =~= raw@);
                Some(c)
            } else {
                assert forall|c: Chop| chop_wf(c) implies !(chop_view(c) =~= raw@) by {
                    if chop_view(c) =~= raw@ {
                        assert(c.count == 2);
                    }
                }
                None
            }
        } else if raw.len() == 3 {
            if raw[0] < raw[1] && raw[1] < raw[2] {
                let c = Chop { count: 3, s0: raw[0], s1: raw[1], s2: raw[2] };
                assert(chop_view(c) =~= raw@);
                Some(c)
            } else {
                assert forall|c: Chop| chop_wf(c) implies !(chop_view(c) =~= raw@) by {
                    if chop_view(c) =~= raw@ {
                        assert(c.count == 3);
                    }
                }
                None
            }
        } else {
            assert forall|c: Chop| chop_wf(c) implies !(chop_view(c) =~= raw@) by {
                if chop_view(c) =~= raw@ {
                    assert(chop_view(c).len() <= 3);
                }
            }
            None
        }
    }
}

} // verus!
