//! The fixpoint engine: rule evaluation to quiescence over the typed fact
//! store. Every rule is evaluated naively from the current store and its
//! conclusions are inserted with deduplication, so relations only grow;
//! a phase quiesces when a whole pass derives nothing new.

use vstd::prelude::*;
use crate::schema::{
    Db, Segment, Entry, LinkPad, Instr, SuccFact, Live, SuccOver, CallSite, FuncFact, CallAddr,
    FuncUse, StackFact, PathAlias, UafFlow, PathAliasTrace, Uaf, PossConst, PossString, PrintfLike,
    db_wf, db_grows, db_eq, db_inputs_eq, has_pa, pa_key_eq, pa_unique, wf_instrs, wf_stacks,
    wf_pas, wf_traces, has_poss_string, has_printf_like,
};
use crate::chop::{Chop, chop_wf, chop_check_spec};
use crate::var::HVar;

verus! {

broadcast use vstd::seq::group_seq_axioms;

/// Linear membership scan.
pub fn contains_succ(v: &Vec<SuccFact>, x: &SuccFact) -> (r: bool)
    ensures
        r == v@.contains(*x),
{
    let n = v.len();
    for i in 0..n
        invariant
            n == v.len(),
            forall|j: int| 0 <= j < i ==> v@[j] != *x,
    {
        if v[i] == *x {
            assert(v@[i as int] == *x);
            return true;
        }
    }
    assert(forall|j: int| 0 <= j < v@.len() ==> v@[j] != *x);
    false
}

/// Inserts the facts of `new` that are not yet present; reports whether
/// anything was added.
pub fn insert_succ(rel: &mut Vec<SuccFact>, new: &Vec<SuccFact>) -> (ch: bool)
    ensures
        forall|f: SuccFact| old(rel)@.contains(f) ==> final(rel)@.contains(f),
        forall|f: SuccFact| new@.contains(f) ==> final(rel)@.contains(f),
        forall|f: SuccFact| final(rel)@.contains(f) ==> old(rel)@.contains(f) || new@.contains(f),
        !ch ==> final(rel)@ == old(rel)@,
        (forall|f: SuccFact| new@.contains(f) ==> old(rel)@.contains(f)) ==> !ch,
{
    let mut ch = false;
    let n = new.len();
    for i in 0..n
        invariant
            n == new.len(),
            forall|f: SuccFact| old(rel)@.contains(f) ==> rel@.contains(f),
            forall|j: int| 0 <= j < i ==> rel@.contains(#[trigger] new@[j]),
            forall|f: SuccFact| rel@.contains(f) ==> old(rel)@.contains(f) || new@.contains(f),
            !ch ==> rel@ == old(rel)@,
            ch ==> exists|j: int| 0 <= j < i && !old(rel)@.contains(#[trigger] new@[j]),
    {
        if !contains_succ(rel, &new[i]) {
            let ghost pre = rel@;
            rel.push(new[i]);
            proof {
                assert(rel@.last() == new@[i as int]);
                assert(forall|k: int| 0 <= k < pre.len() ==> rel@[k] == pre[k]);
                assert forall|f: SuccFact| pre.contains(f) implies rel@.contains(f) by {
                    let k = choose|k: int| 0 <= k < pre.len() && pre[k] == f;
                    assert(rel@[k] == f);
                }
                assert(new@.contains(new@[i as int]));
            }
            ch = true;
        } else {
            assert(rel@.contains(new@[i as int]));
        }
    }
    proof {
        if ch {
            let j = choose|j: int| 0 <= j < n && !old(rel)@.contains(#[trigger] new@[j]);
            assert(new@.contains(new@[j]));
        }
    }
    ch
}

/// Linear membership scan.
pub fn contains_live(v: &Vec<Live>, x: &Live) -> (r: bool)
    ensures
        r == v@.contains(*x),
{
    let n = v.len();
    for i in 0..n
        invariant
            n == v.len(),
            forall|j: int| 0 <= j < i ==> v@[j] != *x,
    {
        if v[i] == *x {
            assert(v@[i as int] == *x);
            return true;
        }
    }
    assert(forall|j: int| 0 <= j < v@.len() ==> v@[j] != *x);
    false
}

/// Inserts the facts of `new` that are not yet present; reports whether
/// anything was added.
pub fn insert_live(rel: &mut Vec<Live>, new: &Vec<Live>) -> (ch: bool)
    ensures
        forall|f: Live| old(rel)@.contains(f) ==> final(rel)@.contains(f),
        forall|f: Live| new@.contains(f) ==> final(rel)@.contains(f),
        forall|f: Live| final(rel)@.contains(f) ==> old(rel)@.contains(f) || new@.contains(f),
        !ch ==> final(rel)@ == old(rel)@,
        (forall|f: Live| new@.contains(f) ==> old(rel)@.contains(f)) ==> !ch,
{
    let mut ch = false;
    let n = new.len();
    for i in 0..n
        invariant
            n == new.len(),
            forall|f: Live| old(rel)@.contains(f) ==> rel@.contains(f),
            forall|j: int| 0 <= j < i ==> rel@.contains(#[trigger] new@[j]),
            forall|f: Live| rel@.contains(f) ==> old(rel)@.contains(f) || new@.contains(f),
            !ch ==> rel@ == old(rel)@,
            ch ==> exists|j: int| 0 <= j < i && !old(rel)@.contains(#[trigger] new@[j]),
    {
        if !contains_live(rel, &new[i]) {
            let ghost pre = rel@;
            rel.push(new[i]);
            proof {
                assert(rel@.last() == new@[i as int]);
                assert(forall|k: int| 0 <= k < pre.len() ==> rel@[k] == pre[k]);
                assert forall|f: Live| pre.contains(f) implies rel@.contains(f) by {
                    let k = choose|k: int| 0 <= k < pre.len() && pre[k] == f;
                    assert(rel@[k] == f);
                }
                assert(new@.contains(new@[i as int]));
            }
            ch = true;
        } else {
            assert(rel@.contains(new@[i as int]));
        }
    }
    proof {
        if ch {
            let j = choose|j: int| 0 <= j < n && !old(rel)@.contains(#[trigger] new@[j]);
            assert(new@.contains(new@[j]));
        }
    }
    ch
}

/// Linear membership scan.
pub fn contains_succ_over(v: &Vec<SuccOver>, x: &SuccOver) -> (r: bool)
    ensures
        r == v@.contains(*x),
{
    let n = v.len();
    for i in 0..n
        invariant
            n == v.len(),
            forall|j: int| 0 <= j < i ==> v@[j] != *x,
    {
        if v[i] == *x {
            assert(v@[i as int] == *x);
            return true;
        }
    }
    assert(forall|j: int| 0 <= j < v@.len() ==> v@[j] != *x);
    false
}

/// Inserts the facts of `new` that are not yet present; reports whether
/// anything was added.
pub fn insert_succ_over(rel: &mut Vec<SuccOver>, new: &Vec<SuccOver>) -> (ch: bool)
    ensures
        forall|f: SuccOver| old(rel)@.contains(f) ==> final(rel)@.contains(f),
        forall|f: SuccOver| new@.contains(f) ==> final(rel)@.contains(f),
        forall|f: SuccOver| final(rel)@.contains(f) ==> old(rel)@.contains(f) || new@.contains(f),
        !ch ==> final(rel)@ == old(rel)@,
        (forall|f: SuccOver| new@.contains(f) ==> old(rel)@.contains(f)) ==> !ch,
{
    let mut ch = false;
    let n = new.len();
    for i in 0..n
        invariant
            n == new.len(),
            forall|f: SuccOver| old(rel)@.contains(f) ==> rel@.contains(f),
            forall|j: int| 0 <= j < i ==> rel@.contains(#[trigger] new@[j]),
            forall|f: SuccOver| rel@.contains(f) ==> old(rel)@.contains(f) || new@.contains(f),
            !ch ==> rel@ == old(rel)@,
            ch ==> exists|j: int| 0 <= j < i && !old(rel)@.contains(#[trigger] new@[j]),
    {
        if !contains_succ_over(rel, &new[i]) {
            let ghost pre = rel@;
            rel.push(new[i]);
            proof {
                assert(rel@.last() == new@[i as int]);
                assert(forall|k: int| 0 <= k < pre.len() ==> rel@[k] == pre[k]);
                assert forall|f: SuccOver| pre.contains(f) implies rel@.contains(f) by {
                    let k = choose|k: int| 0 <= k < pre.len() && pre[k] == f;
                    assert(rel@[k] == f);
                }
                assert(new@.contains(new@[i as int]));
            }
            ch = true;
        } else {
            assert(rel@.contains(new@[i as int]));
        }
    }
    proof {
        if ch {
            let j = choose|j: int| 0 <= j < n && !old(rel)@.contains(#[trigger] new@[j]);
            assert(new@.contains(new@[j]));
        }
    }
    ch
}

/// Linear membership scan.
pub fn contains_call_site(v: &Vec<CallSite>, x: &CallSite) -> (r: bool)
    ensures
        r == v@.contains(*x),
{
    let n = v.len();
    for i in 0..n
        invariant
            n == v.len(),
            forall|j: int| 0 <= j < i ==> v@[j] != *x,
    {
        if v[i] == *x {
            assert(v@[i as int] == *x);
            return true;
        }
    }
    assert(forall|j: int| 0 <= j < v@.len() ==> v@[j] != *x);
    false
}

/// Inserts the facts of `new` that are not yet present; reports whether
/// anything was added.
pub fn insert_call_site(rel: &mut Vec<CallSite>, new: &Vec<CallSite>) -> (ch: bool)
    ensures
        forall|f: CallSite| old(rel)@.contains(f) ==> final(rel)@.contains(f),
        forall|f: CallSite| new@.contains(f) ==> final(rel)@.contains(f),
        forall|f: CallSite| final(rel)@.contains(f) ==> old(rel)@.contains(f) || new@.contains(f),
        !ch ==> final(rel)@ == old(rel)@,
        (forall|f: CallSite| new@.contains(f) ==> old(rel)@.contains(f)) ==> !ch,
{
    let mut ch = false;
    let n = new.len();
    for i in 0..n
        invariant
            n == new.len(),
            forall|f: CallSite| old(rel)@.contains(f) ==> rel@.contains(f),
            forall|j: int| 0 <= j < i ==> rel@.contains(#[trigger] new@[j]),
            forall|f: CallSite| rel@.contains(f) ==> old(rel)@.contains(f) || new@.contains(f),
            !ch ==> rel@ == old(rel)@,
            ch ==> exists|j: int| 0 <= j < i && !old(rel)@.contains(#[trigger] new@[j]),
    {
        if !contains_call_site(rel, &new[i]) {
            let ghost pre = rel@;
            rel.push(new[i]);
            proof {
                assert(rel@.last() == new@[i as int]);
                assert(forall|k: int| 0 <= k < pre.len() ==> rel@[k] == pre[k]);
                assert forall|f: CallSite| pre.contains(f) implies rel@.contains(f) by {
                    let k = choose|k: int| 0 <= k < pre.len() && pre[k] == f;
                    assert(rel@[k] == f);
                }
                assert(new@.contains(new@[i as int]));
            }
            ch = true;
        } else {
            assert(rel@.contains(new@[i as int]));
        }
    }
    proof {
        if ch {
            let j = choose|j: int| 0 <= j < n && !old(rel)@.contains(#[trigger] new@[j]);
            assert(new@.contains(new@[j]));
        }
    }
    ch
}

/// Linear membership scan.
pub fn contains_func(v: &Vec<FuncFact>, x: &FuncFact) -> (r: bool)
    ensures
        r == v@.contains(*x),
{
    let n = v.len();
    for i in 0..n
        invariant
            n == v.len(),
            forall|j: int| 0 <= j < i ==> v@[j] != *x,
    {
        if v[i] == *x {
            assert(v@[i as int] == *x);
            return true;
        }
    }
    assert(forall|j: int| 0 <= j < v@.len() ==> v@[j] != *x);
    false
}

/// Inserts the facts of `new` that are not yet present; reports whether
/// anything was added.
pub fn insert_func(rel: &mut Vec<FuncFact>, new: &Vec<FuncFact>) -> (ch: bool)
    ensures
        forall|f: FuncFact| old(rel)@.contains(f) ==> final(rel)@.contains(f),
        forall|f: FuncFact| new@.contains(f) ==> final(rel)@.contains(f),
        forall|f: FuncFact| final(rel)@.contains(f) ==> old(rel)@.contains(f) || new@.contains(f),
        !ch ==> final(rel)@ == old(rel)@,
        (forall|f: FuncFact| new@.contains(f) ==> old(rel)@.contains(f)) ==> !ch,
{
    let mut ch = false;
    let n = new.len();
    for i in 0..n
        invariant
            n == new.len(),
            forall|f: FuncFact| old(rel)@.contains(f) ==> rel@.contains(f),
            forall|j: int| 0 <= j < i ==> rel@.contains(#[trigger] new@[j]),
            forall|f: FuncFact| rel@.contains(f) ==> old(rel)@.contains(f) || new@.contains(f),
            !ch ==> rel@ == old(rel)@,
            ch ==> exists|j: int| 0 <= j < i && !old(rel)@.contains(#[trigger] new@[j]),
    {
        if !contains_func(rel, &new[i]) {
            let ghost pre = rel@;
            rel.push(new[i]);
            proof {
                assert(rel@.last() == new@[i as int]);
                assert(forall|k: int| 0 <= k < pre.len() ==> rel@[k] == pre[k]);
                assert forall|f: FuncFact| pre.contains(f) implies rel@.contains(f) by {
                    let k = choose|k: int| 0 <= k < pre.len() && pre[k] == f;
                    assert(rel@[k] == f);
                }
                assert(new@.contains(new@[i as int]));
            }
            ch = true;
        } else {
            assert(rel@.contains(new@[i as int]));
        }
    }
    proof {
        if ch {
            let j = choose|j: int| 0 <= j < n && !old(rel)@.contains(#[trigger] new@[j]);
            assert(new@.contains(new@[j]));
        }
    }
    ch
}

/// Linear membership scan.
pub fn contains_call_addr(v: &Vec<CallAddr>, x: &CallAddr) -> (r: bool)
    ensures
        r == v@.contains(*x),
{
    let n = v.len();
    for i in 0..n
        invariant
            n == v.len(),
            forall|j: int| 0 <= j < i ==> v@[j] != *x,
    {
        if v[i] == *x {
            assert(v@[i as int] == *x);
            return true;
        }
    }
    assert(forall|j: int| 0 <= j < v@.len() ==> v@[j] != *x);
    false
}

/// Inserts the facts of `new` that are not yet present; reports whether
/// anything was added.
pub fn insert_call_addr(rel: &mut Vec<CallAddr>, new: &Vec<CallAddr>) -> (ch: bool)
    ensures
        forall|f: CallAddr| old(rel)@.contains(f) ==> final(rel)@.contains(f),
        forall|f: CallAddr| new@.contains(f) ==> final(rel)@.contains(f),
        forall|f: CallAddr| final(rel)@.contains(f) ==> old(rel)@.contains(f) || new@.contains(f),
        !ch ==> final(rel)@ == old(rel)@,
        (forall|f: CallAddr| new@.contains(f) ==> old(rel)@.contains(f)) ==> !ch,
{
    let mut ch = false;
    let n = new.len();
    for i in 0..n
        invariant
            n == new.len(),
            forall|f: CallAddr| old(rel)@.contains(f) ==> rel@.contains(f),
            forall|j: int| 0 <= j < i ==> rel@.contains(#[trigger] new@[j]),
            forall|f: CallAddr| rel@.contains(f) ==> old(rel)@.contains(f) || new@.contains(f),
            !ch ==> rel@ == old(rel)@,
            ch ==> exists|j: int| 0 <= j < i && !old(rel)@.contains(#[trigger] new@[j]),
    {
        if !contains_call_addr(rel, &new[i]) {
            let ghost pre = rel@;
            rel.push(new[i]);
            proof {
                assert(rel@.last() == new@[i as int]);
                assert(forall|k: int| 0 <= k < pre.len() ==> rel@[k] == pre[k]);
                assert forall|f: CallAddr| pre.contains(f) implies rel@.contains(f) by {
                    let k = choose|k: int| 0 <= k < pre.len() && pre[k] == f;
                    assert(rel@[k] == f);
                }
                assert(new@.contains(new@[i as int]));
            }
            ch = true;
        } else {
            assert(rel@.contains(new@[i as int]));
        }
    }
    proof {
        if ch {
            let j = choose|j: int| 0 <= j < n && !old(rel)@.contains(#[trigger] new@[j]);
            assert(new@.contains(new@[j]));
        }
    }
    ch
}

/// Linear membership scan.
pub fn contains_func_use(v: &Vec<FuncUse>, x: &FuncUse) -> (r: bool)
    ensures
        r == v@.contains(*x),
{
    let n = v.len();
    for i in 0..n
        invariant
            n == v.len(),
            forall|j: int| 0 <= j < i ==> v@[j] != *x,
    {
        if v[i] == *x {
            assert(v@[i as int] == *x);
            return true;
        }
    }
    assert(forall|j: int| 0 <= j < v@.len() ==> v@[j] != *x);
    false
}

/// Inserts the facts of `new` that are not yet present; reports whether
/// anything was added.
pub fn insert_func_use(rel: &mut Vec<FuncUse>, new: &Vec<FuncUse>) -> (ch: bool)
    ensures
        forall|f: FuncUse| old(rel)@.contains(f) ==> final(rel)@.contains(f),
        forall|f: FuncUse| new@.contains(f) ==> final(rel)@.contains(f),
        forall|f: FuncUse| final(rel)@.contains(f) ==> old(rel)@.contains(f) || new@.contains(f),
        !ch ==> final(rel)@ == old(rel)@,
        (forall|f: FuncUse| new@.contains(f) ==> old(rel)@.contains(f)) ==> !ch,
{
    let mut ch = false;
    let n = new.len();
    for i in 0..n
        invariant
            n == new.len(),
            forall|f: FuncUse| old(rel)@.contains(f) ==> rel@.contains(f),
            forall|j: int| 0 <= j < i ==> rel@.contains(#[trigger] new@[j]),
            forall|f: FuncUse| rel@.contains(f) ==> old(rel)@.contains(f) || new@.contains(f),
            !ch ==> rel@ == old(rel)@,
            ch ==> exists|j: int| 0 <= j < i && !old(rel)@.contains(#[trigger] new@[j]),
    {
        if !contains_func_use(rel, &new[i]) {
            let ghost pre = rel@;
            rel.push(new[i]);
            proof {
                assert(rel@.last() == new@[i as int]);
                assert(forall|k: int| 0 <= k < pre.len() ==> rel@[k] == pre[k]);
                assert forall|f: FuncUse| pre.contains(f) implies rel@.contains(f) by {
                    let k = choose|k: int| 0 <= k < pre.len() && pre[k] == f;
                    assert(rel@[k] == f);
                }
                assert(new@.contains(new@[i as int]));
            }
            ch = true;
        } else {
            assert(rel@.contains(new@[i as int]));
        }
    }
    proof {
        if ch {
            let j = choose|j: int| 0 <= j < n && !old(rel)@.contains(#[trigger] new@[j]);
            assert(new@.contains(new@[j]));
        }
    }
    ch
}

/// Linear membership scan.
pub fn contains_uaf_flow(v: &Vec<UafFlow>, x: &UafFlow) -> (r: bool)
    ensures
        r == v@.contains(*x),
{
    let n = v.len();
    for i in 0..n
        invariant
            n == v.len(),
            forall|j: int| 0 <= j < i ==> v@[j] != *x,
    {
        if v[i] == *x {
            assert(v@[i as int] == *x);
            return true;
        }
    }
    assert(forall|j: int| 0 <= j < v@.len() ==> v@[j] != *x);
    false
}

/// Inserts the facts of `new` that are not yet present; reports whether
/// anything was added.
pub fn insert_uaf_flow(rel: &mut Vec<UafFlow>, new: &Vec<UafFlow>) -> (ch: bool)
    ensures
        forall|f: UafFlow| old(rel)@.contains(f) ==> final(rel)@.contains(f),
        forall|f: UafFlow| new@.contains(f) ==> final(rel)@.contains(f),
        forall|f: UafFlow| final(rel)@.contains(f) ==> old(rel)@.contains(f) || new@.contains(f),
        !ch ==> final(rel)@ == old(rel)@,
        (forall|f: UafFlow| new@.contains(f) ==> old(rel)@.contains(f)) ==> !ch,
{
    let mut ch = false;
    let n = new.len();
    for i in 0..n
        invariant
            n == new.len(),
            forall|f: UafFlow| old(rel)@.contains(f) ==> rel@.contains(f),
            forall|j: int| 0 <= j < i ==> rel@.contains(#[trigger] new@[j]),
            forall|f: UafFlow| rel@.contains(f) ==> old(rel)@.contains(f) || new@.contains(f),
            !ch ==> rel@ == old(rel)@,
            ch ==> exists|j: int| 0 <= j < i && !old(rel)@.contains(#[trigger] new@[j]),
    {
        if !contains_uaf_flow(rel, &new[i]) {
            let ghost pre = rel@;
            rel.push(new[i]);
            proof {
                assert(rel@.last() == new@[i as int]);
                assert(forall|k: int| 0 <= k < pre.len() ==> rel@[k] == pre[k]);
                assert forall|f: UafFlow| pre.contains(f) implies rel@.contains(f) by {
                    let k = choose|k: int| 0 <= k < pre.len() && pre[k] == f;
                    assert(rel@[k] == f);
                }
                assert(new@.contains(new@[i as int]));
            }
            ch = true;
        } else {
            assert(rel@.contains(new@[i as int]));
        }
    }
    proof {
        if ch {
            let j = choose|j: int| 0 <= j < n && !old(rel)@.contains(#[trigger] new@[j]);
            assert(new@.contains(new@[j]));
        }
    }
    ch
}

/// Linear membership scan.
pub fn contains_trace_fact(v: &Vec<PathAliasTrace>, x: &PathAliasTrace) -> (r: bool)
    ensures
        r == v@.contains(*x),
{
    let n = v.len();
    for i in 0..n
        invariant
            n == v.len(),
            forall|j: int| 0 <= j < i ==> v@[j] != *x,
    {
        if v[i] == *x {
            assert(v@[i as int] == *x);
            return true;
        }
    }
    assert(forall|j: int| 0 <= j < v@.len() ==> v@[j] != *x);
    false
}

/// Inserts the facts of `new` that are not yet present; reports whether
/// anything was added.
pub fn insert_trace_fact(rel: &mut Vec<PathAliasTrace>, new: &Vec<PathAliasTrace>) -> (ch: bool)
    ensures
        forall|f: PathAliasTrace| old(rel)@.contains(f) ==> final(rel)@.contains(f),
        forall|f: PathAliasTrace| new@.contains(f) ==> final(rel)@.contains(f),
        forall|f: PathAliasTrace| final(rel)@.contains(f) ==> old(rel)@.contains(f) || new@.contains(f),
        !ch ==> final(rel)@ == old(rel)@,
        (forall|f: PathAliasTrace| new@.contains(f) ==> old(rel)@.contains(f)) ==> !ch,
{
    let mut ch = false;
    let n = new.len();
    for i in 0..n
        invariant
            n == new.len(),
            forall|f: PathAliasTrace| old(rel)@.contains(f) ==> rel@.contains(f),
            forall|j: int| 0 <= j < i ==> rel@.contains(#[trigger] new@[j]),
            forall|f: PathAliasTrace| rel@.contains(f) ==> old(rel)@.contains(f) || new@.contains(f),
            !ch ==> rel@ == old(rel)@,
            ch ==> exists|j: int| 0 <= j < i && !old(rel)@.contains(#[trigger] new@[j]),
    {
        if !contains_trace_fact(rel, &new[i]) {
            let ghost pre = rel@;
            rel.push(new[i]);
            proof {
                assert(rel@.last() == new@[i as int]);
                assert(forall|k: int| 0 <= k < pre.len() ==> rel@[k] == pre[k]);
                assert forall|f: PathAliasTrace| pre.contains(f) implies rel@.contains(f) by {
                    let k = choose|k: int| 0 <= k < pre.len() && pre[k] == f;
                    assert(rel@[k] == f);
                }
                assert(new@.contains(new@[i as int]));
            }
            ch = true;
        } else {
            assert(rel@.contains(new@[i as int]));
        }
    }
    proof {
        if ch {
            let j = choose|j: int| 0 <= j < n && !old(rel)@.contains(#[trigger] new@[j]);
            assert(new@.contains(new@[j]));
        }
    }
    ch
}

/// Linear membership scan.
pub fn contains_uaf(v: &Vec<Uaf>, x: &Uaf) -> (r: bool)
    ensures
        r == v@.contains(*x),
{
    let n = v.len();
    for i in 0..n
        invariant
            n == v.len(),
            forall|j: int| 0 <= j < i ==> v@[j] != *x,
    {
        if v[i] == *x {
            assert(v@[i as int] == *x);
            return true;
        }
    }
    assert(forall|j: int| 0 <= j < v@.len() ==> v@[j] != *x);
    false
}

/// Inserts the facts of `new` that are not yet present; reports whether
/// anything was added.
pub fn insert_uaf(rel: &mut Vec<Uaf>, new: &Vec<Uaf>) -> (ch: bool)
    ensures
        forall|f: Uaf| old(rel)@.contains(f) ==> final(rel)@.contains(f),
        forall|f: Uaf| new@.contains(f) ==> final(rel)@.contains(f),
        forall|f: Uaf| final(rel)@.contains(f) ==> old(rel)@.contains(f) || new@.contains(f),
        !ch ==> final(rel)@ == old(rel)@,
        (forall|f: Uaf| new@.contains(f) ==> old(rel)@.contains(f)) ==> !ch,
{
    let mut ch = false;
    let n = new.len();
    for i in 0..n
        invariant
            n == new.len(),
            forall|f: Uaf| old(rel)@.contains(f) ==> rel@.contains(f),
            forall|j: int| 0 <= j < i ==> rel@.contains(#[trigger] new@[j]),
            forall|f: Uaf| rel@.contains(f) ==> old(rel)@.contains(f) || new@.contains(f),
            !ch ==> rel@ == old(rel)@,
            ch ==> exists|j: int| 0 <= j < i && !old(rel)@.contains(#[trigger] new@[j]),
    {
        if !contains_uaf(rel, &new[i]) {
            let ghost pre = rel@;
            rel.push(new[i]);
            proof {
                assert(rel@.last() == new@[i as int]);
                assert(forall|k: int| 0 <= k < pre.len() ==> rel@[k] == pre[k]);
                assert forall|f: Uaf| pre.contains(f) implies rel@.contains(f) by {
                    let k = choose|k: int| 0 <= k < pre.len() && pre[k] == f;
                    assert(rel@[k] == f);
                }
                assert(new@.contains(new@[i as int]));
            }
            ch = true;
        } else {
            assert(rel@.contains(new@[i as int]));
        }
    }
    proof {
        if ch {
            let j = choose|j: int| 0 <= j < n && !old(rel)@.contains(#[trigger] new@[j]);
            assert(new@.contains(new@[j]));
        }
    }
    ch
}

/// Linear membership scan.
pub fn contains_poss_const(v: &Vec<PossConst>, x: &PossConst) -> (r: bool)
    ensures
        r == v@.contains(*x),
{
    let n = v.len();
    for i in 0..n
        invariant
            n == v.len(),
            forall|j: int| 0 <= j < i ==> v@[j] != *x,
    {
        if v[i] == *x {
            assert(v@[i as int] == *x);
            return true;
        }
    }
    assert(forall|j: int| 0 <= j < v@.len() ==> v@[j] != *x);
    false
}

/// Inserts the facts of `new` that are not yet present; reports whether
/// anything was added.
pub fn insert_poss_const(rel: &mut Vec<PossConst>, new: &Vec<PossConst>) -> (ch: bool)
    ensures
        forall|f: PossConst| old(rel)@.contains(f) ==> final(rel)@.contains(f),
        forall|f: PossConst| new@.contains(f) ==> final(rel)@.contains(f),
        forall|f: PossConst| final(rel)@.contains(f) ==> old(rel)@.contains(f) || new@.contains(f),
        !ch ==> final(rel)@ == old(rel)@,
        (forall|f: PossConst| new@.contains(f) ==> old(rel)@.contains(f)) ==> !ch,
{
    let mut ch = false;
    let n = new.len();
    for i in 0..n
        invariant
            n == new.len(),
            forall|f: PossConst| old(rel)@.contains(f) ==> rel@.contains(f),
            forall|j: int| 0 <= j < i ==> rel@.contains(#[trigger] new@[j]),
            forall|f: PossConst| rel@.contains(f) ==> old(rel)@.contains(f) || new@.contains(f),
            !ch ==> rel@ == old(rel)@,
            ch ==> exists|j: int| 0 <= j < i && !old(rel)@.contains(#[trigger] new@[j]),
    {
        if !contains_poss_const(rel, &new[i]) {
            let ghost pre = rel@;
            rel.push(new[i]);
            proof {
                assert(rel@.last() == new@[i as int]);
                assert(forall|k: int| 0 <= k < pre.len() ==> rel@[k] == pre[k]);
                assert forall|f: PossConst| pre.contains(f) implies rel@.contains(f) by {
                    let k = choose|k: int| 0 <= k < pre.len() && pre[k] == f;
                    assert(rel@[k] == f);
                }
                assert(new@.contains(new@[i as int]));
            }
            ch = true;
        } else {
            assert(rel@.contains(new@[i as int]));
        }
    }
    proof {
        if ch {
            let j = choose|j: int| 0 <= j < n && !old(rel)@.contains(#[trigger] new@[j]);
            assert(new@.contains(new@[j]));
        }
    }
    ch
}

/// Byte-for-byte comparison of two byte vectors.
pub fn bytes_eq(a: &Vec<u8>, b: &Vec<u8>) -> (r: bool)
    ensures
        r == (a@ == b@),
{
    if a.len() != b.len() {
        proof {
            assert(a@.len() != b@.len());
        }
        return false;
    }
    let n = a.len();
    for i in 0..n
        invariant
            n == a.len(),
            n == b.len(),
            forall|j: int| 0 <= j < i ==> a@[j] == b@[j],
    {
        if a[i] != b[i] {
            proof {
                assert(a@[i as int] != b@[i as int]);
            }
            return false;
        }
    }
    proof {
        assert(a@ =~= b@);
    }
    true
}

/// Copies a byte vector.
pub fn bytes_clone(v: &Vec<u8>) -> (r: Vec<u8>)
    ensures
        r@ == v@,
{
    let mut out: Vec<u8> = Vec::new();
    let n = v.len();
    for i in 0..n
        invariant
            n == v.len(),
            out@ =~= v@.take(i as int),
    {
        out.push(v[i]);
        proof {
            assert(v@.take(i + 1) =~= v@.take(i as int).push(v@[i as int]));
        }
    }
    proof {
        assert(v@.take(n as int) =~= v@);
    }
    out
}

/// Whether a possible-string fact with these fields is stored.
pub fn contains_poss_string(rel: &Vec<PossString>, bin: u64, addr: u64, var: &HVar, s: &Vec<u8>) -> (r: bool)
    ensures
        r == has_poss_string(rel@, bin, addr, *var, s@),
{
    let n = rel.len();
    for i in 0..n
        invariant
            n == rel.len(),
            forall|j: int|
                0 <= j < i ==> !((#[trigger] rel@[j]).bin == bin && rel@[j].addr == addr
                    && rel@[j].var == *var && rel@[j].s@ == s@),
    {
        if rel[i].bin == bin && rel[i].addr == addr && rel[i].var == *var && bytes_eq(&rel[i].s, s) {
            proof {
                assert((#[trigger] rel@[i as int]).bin == bin && rel@[i as int].addr == addr
                    && rel@[i as int].var == *var && rel@[i as int].s@ == s@);
            }
            return true;
        }
    }
    false
}

/// Inserts the possible-string facts of `new` that are not yet present.
pub fn insert_poss_strings(rel: &mut Vec<PossString>, new: Vec<PossString>) -> (ch: bool)
    ensures
        old(rel)@.is_prefix_of(final(rel)@),
        forall|k: int|
            0 <= k < new@.len() ==> has_poss_string(
                final(rel)@,
                (#[trigger] new@[k]).bin,
                new@[k].addr,
                new@[k].var,
                new@[k].s@,
            ),
        forall|i: int|
            0 <= i < final(rel)@.len() ==> i < old(rel)@.len() || exists|k: int|
                0 <= k < new@.len() && (#[trigger] final(rel)@[i]).bin == (#[trigger] new@[k]).bin
                    && final(rel)@[i].addr == new@[k].addr && final(rel)@[i].var == new@[k].var
                    && final(rel)@[i].s@ == new@[k].s@,
        !ch ==> final(rel)@ == old(rel)@,
        (forall|k: int|
            0 <= k < new@.len() ==> has_poss_string(
                old(rel)@,
                (#[trigger] new@[k]).bin,
                new@[k].addr,
                new@[k].var,
                new@[k].s@,
            )) ==> !ch,
{
    let mut ch = false;
    let n = new.len();
    let mut idx: usize = 0;
    let mut new = new;
    while idx < n
        invariant
            idx <= n,
            n == new@.len(),
            old(rel)@.is_prefix_of(rel@),
            forall|k: int|
                0 <= k < idx ==> has_poss_string(
                    rel@,
                    (#[trigger] new@[k]).bin,
                    new@[k].addr,
                    new@[k].var,
                    new@[k].s@,
                ),
            forall|i: int|
                0 <= i < rel@.len() ==> i < old(rel)@.len() || exists|k: int|
                    0 <= k < new@.len() && (#[trigger] rel@[i]).bin == (#[trigger] new@[k]).bin
                        && rel@[i].addr == new@[k].addr && rel@[i].var == new@[k].var && rel@[i].s@
                        == new@[k].s@,
            !ch ==> rel@ == old(rel)@,
            ch ==> exists|k: int|
                0 <= k < idx && !has_poss_string(
                    old(rel)@,
                    (#[trigger] new@[k]).bin,
                    new@[k].addr,
                    new@[k].var,
                    new@[k].s@,
                ),
        decreases n - idx,
    {
        let f_bin = new[idx].bin;
        let f_addr = new[idx].addr;
        let f_var = new[idx].var;
        if !contains_poss_string(rel, f_bin, f_addr, &f_var, &new[idx].s) {
            let ghost pre = rel@;
            let s2 = bytes_clone(&new[idx].s);
            rel.push(PossString { bin: f_bin, addr: f_addr, var: f_var, s: s2 });
            proof {
                let last = rel@.len() - 1;
                assert(rel@[last].bin == new@[idx as int].bin && rel@[last].addr
                    == new@[idx as int].addr && rel@[last].var == new@[idx as int].var
                    && rel@[last].s@ == new@[idx as int].s@);
                assert(forall|k: int| 0 <= k < pre.len() ==> rel@[k] == pre[k]);
                assert forall|k: int|
                    0 <= k < idx implies has_poss_string(
                    rel@,
                    (#[trigger] new@[k]).bin,
                    new@[k].addr,
                    new@[k].var,
                    new@[k].s@,
                ) by {
                    let i = choose|i: int|
                        0 <= i < pre.len() && (#[trigger] pre[i]).bin == new@[k].bin && pre[i].addr
                            == new@[k].addr && pre[i].var == new@[k].var && pre[i].s@ == new@[k].s@;
                    assert(rel@[i].bin == new@[k].bin && rel@[i].addr == new@[k].addr && rel@[i].var
                        == new@[k].var && rel@[i].s@ == new@[k].s@);
                }
            }
            ch = true;
        }
        idx = idx + 1;
    }
    proof {
        if ch {
            let k = choose|k: int|
                0 <= k < n && !has_poss_string(
                    old(rel)@,
                    (#[trigger] new@[k]).bin,
                    new@[k].addr,
                    new@[k].var,
                    new@[k].s@,
                );
        }
    }
    ch
}

/// Registers a printf-like routine name unless it is already registered.
pub fn insert_printf_like(rel: &mut Vec<PrintfLike>, name: String) -> (ch: bool)
    ensures
        old(rel)@.is_prefix_of(final(rel)@),
        has_printf_like(final(rel)@, name@),
        forall|i: int|
            0 <= i < final(rel)@.len() ==> i < old(rel)@.len() || (#[trigger] final(rel)@[i]).name@
                == name@,
        !ch ==> final(rel)@ == old(rel)@,
        has_printf_like(old(rel)@, name@) ==> !ch,
{
    let n = rel.len();
    for i in 0..n
        invariant
            n == rel.len(),
            *rel == *old(rel),
            forall|j: int| 0 <= j < i ==> (#[trigger] rel@[j]).name@ != name@,
    {
        if rel[i].name == name {
            proof {
                assert((#[trigger] rel@[i as int]).name@ == name@);
            }
            return false;
        }
    }
    let ghost pre = rel@;
    rel.push(PrintfLike { name });
    proof {
        let last = rel@.len() - 1;
        assert(rel@[last].name@ == name@);
        assert(forall|k: int| 0 <= k < pre.len() ==> rel@[k] == pre[k]);
    }
    true
}

/// A record whose key is drawn from `base` or from the candidates
/// `cands`.
pub open spec fn pa_key_from_one(x: PathAlias, base: Seq<PathAlias>, cands: Seq<PathAlias>) -> bool {
    (exists|j: int| 0 <= j < base.len() && pa_key_eq(x, #[trigger] base[j])) || (exists|k: int|
        0 <= k < cands.len() && pa_key_eq(x, #[trigger] cands[k]))
}

/// Every record of `cur` has the key of a record of `base` or of a
/// candidate in `cands`: insertion adds no keys of its own.
pub open spec fn pa_keys_from(cur: Seq<PathAlias>, base: Seq<PathAlias>, cands: Seq<PathAlias>) -> bool {
    forall|i: int| 0 <= i < cur.len() ==> pa_key_from_one(#[trigger] cur[i], base, cands)
}

/// A relation equal to its base draws all its keys from it.
pub proof fn lemma_pa_keys_refl(cur: Seq<PathAlias>, base: Seq<PathAlias>, cands: Seq<PathAlias>)
    requires
        cur == base,
    ensures
        pa_keys_from(cur, base, cands),
{
    assert forall|i: int| 0 <= i < cur.len() implies pa_key_from_one(#[trigger] cur[i], base, cands) by {
        assert(pa_key_eq(cur[i], base[i]));
    }
}

/// Key provenance composes across one insertion step.
pub proof fn lemma_pa_keys_step(
    cur: Seq<PathAlias>,
    pre: Seq<PathAlias>,
    base: Seq<PathAlias>,
    cands: Seq<PathAlias>,
    f: PathAlias,
)
    requires
        pa_keys_from(cur, pre, seq![f]),
        pa_keys_from(pre, base, cands),
        cands.contains(f),
    ensures
        pa_keys_from(cur, base, cands),
{
    let fk = choose|k: int| 0 <= k < cands.len() && cands[k] == f;
    assert forall|i: int| 0 <= i < cur.len() implies pa_key_from_one(#[trigger] cur[i], base, cands) by {
        assert(pa_key_from_one(cur[i], pre, seq![f]));
        if exists|j: int| 0 <= j < pre.len() && pa_key_eq(cur[i], #[trigger] pre[j]) {
            let j = choose|j: int| 0 <= j < pre.len() && pa_key_eq(cur[i], #[trigger] pre[j]);
            assert(pa_key_from_one(pre[j], base, cands));
            if exists|j2: int| 0 <= j2 < base.len() && pa_key_eq(pre[j], #[trigger] base[j2]) {
                let j2 = choose|j2: int| 0 <= j2 < base.len() && pa_key_eq(pre[j], #[trigger] base[j2]);
                assert(pa_key_eq(cur[i], base[j2]));
            } else {
                let k = choose|k: int| 0 <= k < cands.len() && pa_key_eq(pre[j], #[trigger] cands[k]);
                assert(pa_key_eq(cur[i], cands[k]));
            }
        } else {
            let k0 = choose|k0: int| 0 <= k0 < 1 && pa_key_eq(cur[i], #[trigger] seq![f][k0]);
            assert(pa_key_eq(cur[i], f));
            assert(pa_key_eq(cur[i], cands[fk]));
        }
    }
}

/// Inserts one path-alias state: a fresh key is appended with its flag, a
/// stored key is upgraded to freed when the new state claims it, and
/// nothing is ever weakened.
pub fn insert_pa_one(rel: &mut Vec<PathAlias>, f: PathAlias) -> (ch: bool)
    requires
        pa_unique(old(rel)@),
    ensures
        pa_unique(final(rel)@),
        forall|g: PathAlias| has_pa(old(rel)@, g) ==> has_pa(final(rel)@, g),
        has_pa(final(rel)@, f),
        forall|g: PathAlias|
            has_pa(final(rel)@, g) ==> has_pa(old(rel)@, g) || (pa_key_eq(g, f) && (g.freed
                ==> f.freed)),
        pa_keys_from(final(rel)@, old(rel)@, seq![f]),
        !ch ==> final(rel)@ == old(rel)@,
        has_pa(old(rel)@, f) ==> !ch && final(rel)@ == old(rel)@,
{
    let n = rel.len();
    for i in 0..n
        invariant
            n == rel.len(),
            *rel == *old(rel),
            pa_unique(rel@),
            forall|j: int| 0 <= j < i ==> !pa_key_eq(#[trigger] rel@[j], f),
    {
        if rel[i].src_bin == f.src_bin && rel[i].src_addr == f.src_addr && rel[i].alias_set
            == f.alias_set && rel[i].stack == f.stack && rel[i].chop == f.chop && rel[i].cur_bin
            == f.cur_bin && rel[i].cur_addr == f.cur_addr && rel[i].var == f.var {
            proof {
                assert(pa_key_eq(rel@[i as int], f));
            }
            if f.freed && !rel[i].freed {
                let mut upgraded = rel[i];
                upgraded.freed = true;
                let ghost pre = rel@;
                rel.set(i, upgraded);
                proof {
                    assert(rel@[i as int] == upgraded);
                    assert(forall|k: int| 0 <= k < pre.len() && k != i ==> rel@[k] == pre[k]);
                    assert forall|g: PathAlias| has_pa(pre, g) implies has_pa(rel@, g) by {
                        let j = choose|j: int|
                            0 <= j < pre.len() && pa_key_eq(#[trigger] pre[j], g) && (g.freed
                                ==> pre[j].freed);
                        assert(pa_key_eq(rel@[j], g) && (g.freed ==> rel@[j].freed));
                    }
                    assert(pa_key_eq(rel@[i as int], f) && (f.freed ==> rel@[i as int].freed));
                    assert forall|g: PathAlias| has_pa(rel@, g) implies has_pa(pre, g) || (
                    pa_key_eq(g, f) && (g.freed ==> f.freed)) by {
                        let j = choose|j: int|
                            0 <= j < rel@.len() && pa_key_eq(#[trigger] rel@[j], g) && (g.freed
                                ==> rel@[j].freed);
                        if j != i {
                            assert(pa_key_eq(pre[j], g) && (g.freed ==> pre[j].freed));
                        }
                    }
                    assert forall|i2: int, j2: int|
                        0 <= i2 < rel@.len() && 0 <= j2 < rel@.len() && pa_key_eq(
                            #[trigger] rel@[i2],
                            #[trigger] rel@[j2],
                        ) implies i2 == j2 by {
                        assert(pa_key_eq(pre[i2], pre[j2]));
                    }
                    assert forall|i2: int|
                        0 <= i2 < rel@.len() implies pa_key_from_one(#[trigger] rel@[i2], pre, seq![f]) by {
                        if i2 != i {
                            assert(pa_key_eq(rel@[i2], pre[i2]));
                        } else {
                            assert(pa_key_eq(rel@[i2], seq![f][0]));
                        }
                    }
                }
                return true;
            } else {
                proof {
                    assert(has_pa(rel@, f)) by {
                        assert(pa_key_eq(rel@[i as int], f) && (f.freed ==> rel@[i as int].freed));
                    }
                    lemma_pa_keys_refl(rel@, old(rel)@, seq![f]);
                }
                return false;
            }
        }
    }
    let ghost pre = rel@;
    rel.push(f);
    proof {
        let last = rel@.len() - 1;
        assert(rel@[last] == f);
        assert(forall|k: int| 0 <= k < pre.len() ==> rel@[k] == pre[k]);
        assert forall|g: PathAlias| has_pa(pre, g) implies has_pa(rel@, g) by {
            let j = choose|j: int|
                0 <= j < pre.len() && pa_key_eq(#[trigger] pre[j], g) && (g.freed ==> pre[j].freed);
            assert(pa_key_eq(rel@[j], g) && (g.freed ==> rel@[j].freed));
        }
        assert(pa_key_eq(rel@[last], f) && (f.freed ==> rel@[last].freed));
        assert forall|g: PathAlias| has_pa(rel@, g) implies has_pa(pre, g) || (pa_key_eq(g, f) && (
        g.freed ==> f.freed)) by {
            let j = choose|j: int|
                0 <= j < rel@.len() && pa_key_eq(#[trigger] rel@[j], g) && (g.freed
                    ==> rel@[j].freed);
            if j != last {
                assert(pa_key_eq(pre[j], g) && (g.freed ==> pre[j].freed));
            }
        }
        assert forall|i2: int, j2: int|
            0 <= i2 < rel@.len() && 0 <= j2 < rel@.len() && pa_key_eq(
                #[trigger] rel@[i2],
                #[trigger] rel@[j2],
            ) implies i2 == j2 by {
            if i2 < last && j2 < last {
                assert(pa_key_eq(pre[i2], pre[j2]));
            } else if i2 == last && j2 < last {
                assert(!pa_key_eq(pre[j2], f));
            } else if j2 == last && i2 < last {
                assert(!pa_key_eq(pre[i2], f));
            }
        }
        assert forall|i2: int|
            0 <= i2 < rel@.len() implies pa_key_from_one(#[trigger] rel@[i2], pre, seq![f]) by {
            if i2 != last {
                assert(pa_key_eq(rel@[i2], pre[i2]));
            } else {
                assert(pa_key_eq(rel@[i2], seq![f][0]));
            }
        }
        if has_pa(pre, f) {
            let j = choose|j: int|
                0 <= j < pre.len() && pa_key_eq(#[trigger] pre[j], f) && (f.freed ==> pre[j].freed);
            assert(false);
        }
    }
    true
}

/// Inserts a batch of path-alias states through `insert_pa_one`.
pub fn insert_pas(rel: &mut Vec<PathAlias>, new: &Vec<PathAlias>) -> (ch: bool)
    requires
        pa_unique(old(rel)@),
    ensures
        pa_unique(final(rel)@),
        forall|g: PathAlias| has_pa(old(rel)@, g) ==> has_pa(final(rel)@, g),
        forall|k: int| 0 <= k < new@.len() ==> has_pa(final(rel)@, #[trigger] new@[k]),
        forall|g: PathAlias|
            has_pa(final(rel)@, g) ==> has_pa(old(rel)@, g) || exists|k: int|
                0 <= k < new@.len() && pa_key_eq(g, #[trigger] new@[k]) && (g.freed
                    ==> new@[k].freed),
        pa_keys_from(final(rel)@, old(rel)@, new@),
        !ch ==> final(rel)@ == old(rel)@,
        (forall|k: int| 0 <= k < new@.len() ==> has_pa(old(rel)@, #[trigger] new@[k])) ==> !ch,
{
    let mut ch = false;
    let n = new.len();
    proof {
        lemma_pa_keys_refl(rel@, old(rel)@, new@);
    }
    for idx in 0..n
        invariant
            n == new@.len(),
            pa_unique(rel@),
            forall|g: PathAlias| has_pa(old(rel)@, g) ==> has_pa(rel@, g),
            forall|k: int| 0 <= k < idx ==> has_pa(rel@, #[trigger] new@[k]),
            forall|g: PathAlias|
                has_pa(rel@, g) ==> has_pa(old(rel)@, g) || exists|k: int|
                    0 <= k < new@.len() && pa_key_eq(g, #[trigger] new@[k]) && (g.freed
                        ==> new@[k].freed),
            pa_keys_from(rel@, old(rel)@, new@),
            !ch ==> rel@ == old(rel)@,
            ch ==> exists|k: int| 0 <= k < idx && !has_pa(old(rel)@, #[trigger] new@[k]),
    {
        let ghost pre = rel@;
        let c = insert_pa_one(rel, new[idx]);
        proof {
            if c {
                if has_pa(old(rel)@, new@[idx as int]) {
                    assert(has_pa(pre, new@[idx as int]));
                    assert(false);
                }
            }
            assert forall|k: int| 0 <= k < idx + 1 implies has_pa(rel@, #[trigger] new@[k]) by {
                if k < idx {
                    assert(has_pa(pre, new@[k]));
                }
            }
            assert(new@.contains(new@[idx as int]));
            lemma_pa_keys_step(rel@, pre, old(rel)@, new@, new@[idx as int]);
        }
        if c {
            ch = true;
        }
    }
    proof {
        if ch {
            let k = choose|k: int| 0 <= k < n && !has_pa(old(rel)@, #[trigger] new@[k]);
        }
    }
    ch
}


// ---------------------------------------------------------------------------
// Rules: reachability and call classification
// ---------------------------------------------------------------------------

/// Every symbol entry point is live.
pub open spec fn rule_entries_live(entries: Seq<Entry>, out_rel: Seq<Live>) -> bool {
    forall|i: int|
        0 <= i < entries.len() ==> out_rel.contains(
            Live { bin: (#[trigger] entries[i]).bin, addr: entries[i].start },
        )
}

/// A fact justified by `rule_entries_live`.
pub open spec fn just_entries_live(entries: Seq<Entry>, f: Live) -> bool {
    exists|i: int|
        0 <= i < entries.len() && f == (Live { bin: (#[trigger] entries[i]).bin, addr: entries[i].start })
}

/// Derives the conclusions of `rule_entries_live`.
pub fn derive_entries_live(entries: &Vec<Entry>) -> (out: Vec<Live>)
    ensures
        rule_entries_live(entries@, out@),
        forall|m: int| 0 <= m < out@.len() ==> just_entries_live(entries@, #[trigger] out@[m]),
{
    let mut out: Vec<Live> = Vec::new();
    let n = entries.len();
    for i in 0..n
        invariant
            n == entries@.len(),
            forall|i2: int|
                0 <= i2 < i ==> out@.contains(
                    Live { bin: (#[trigger] entries[i2]).bin, addr: entries[i2].start },
                ),
            forall|m: int| 0 <= m < out@.len() ==> just_entries_live(entries@, #[trigger] out@[m]),
    {
        let f = Live { bin: entries[i].bin, addr: entries[i].start };
        let ghost pre = out@;
        out.push(f);
        proof {
            assert(out@.last() == f);
            assert(forall|k: int| 0 <= k < pre.len() ==> out@[k] == pre[k]);
            assert(just_entries_live(entries@, f)) by {
                assert(f == (Live { bin: (#[trigger] entries[i as int]).bin, addr: entries[i as int].start }));
            }
            assert forall|m: int| 0 <= m < out@.len() implies just_entries_live(entries@, #[trigger] out@[m]) by {
                if m < pre.len() {
                    assert(out@[m] == pre[m]);
                } else {
                    assert(out@[m] == f);
                }
            }
            assert forall|i2: int|
                0 <= i2 < i + 1 implies out@.contains(
                Live { bin: (#[trigger] entries[i2]).bin, addr: entries[i2].start },
            ) by {
                if i2 < i {
                    let k = choose|k: int|
                        0 <= k < pre.len() && pre[k] == (Live { bin: (#[trigger] entries[i2]).bin, addr: entries[i2].start });
                    assert(out@[k] == pre[k]);
                }
            }
        }
    }
    out
}

/// Every resolved transfer's sink is live.
pub open spec fn rule_live_succ(succs: Seq<SuccFact>, out_rel: Seq<Live>) -> bool {
    forall|i: int|
        0 <= i < succs.len() ==> out_rel.contains(
            Live { bin: (#[trigger] succs[i]).bin, addr: succs[i].sink },
        )
}

/// A fact justified by `rule_live_succ`.
pub open spec fn just_live_succ(succs: Seq<SuccFact>, f: Live) -> bool {
    exists|i: int|
        0 <= i < succs.len() && f == (Live { bin: (#[trigger] succs[i]).bin, addr: succs[i].sink })
}

/// Derives the conclusions of `rule_live_succ`.
pub fn derive_live_succ(succs: &Vec<SuccFact>) -> (out: Vec<Live>)
    ensures
        rule_live_succ(succs@, out@),
        forall|m: int| 0 <= m < out@.len() ==> just_live_succ(succs@, #[trigger] out@[m]),
{
    let mut out: Vec<Live> = Vec::new();
    let n = succs.len();
    for i in 0..n
        invariant
            n == succs@.len(),
            forall|i2: int|
                0 <= i2 < i ==> out@.contains(
                    Live { bin: (#[trigger] succs[i2]).bin, addr: succs[i2].sink },
                ),
            forall|m: int| 0 <= m < out@.len() ==> just_live_succ(succs@, #[trigger] out@[m]),
    {
        let f = Live { bin: succs[i].bin, addr: succs[i].sink };
        let ghost pre = out@;
        out.push(f);
        proof {
            assert(out@.last() == f);
            assert(forall|k: int| 0 <= k < pre.len() ==> out@[k] == pre[k]);
            assert(just_live_succ(succs@, f)) by {
                assert(f == (Live { bin: (#[trigger] succs[i as int]).bin, addr: succs[i as int].sink }));
            }
            assert forall|m: int| 0 <= m < out@.len() implies just_live_succ(succs@, #[trigger] out@[m]) by {
                if m < pre.len() {
                    assert(out@[m] == pre[m]);
                } else {
                    assert(out@[m] == f);
                }
            }
            assert forall|i2: int|
                0 <= i2 < i + 1 implies out@.contains(
                Live { bin: (#[trigger] succs[i2]).bin, addr: succs[i2].sink },
            ) by {
                if i2 < i {
                    let k = choose|k: int|
                        0 <= k < pre.len() && pre[k] == (Live { bin: (#[trigger] succs[i2]).bin, addr: succs[i2].sink });
                    assert(out@[k] == pre[k]);
                }
            }
        }
    }
    out
}

/// The fallthrough of every call instruction is live.
pub open spec fn rule_live_call(instrs: Seq<Instr>, out_rel: Seq<Live>) -> bool {
    forall|i: int|
        0 <= i < instrs.len() && (#[trigger] instrs[i]).is_call ==> out_rel.contains(
            Live { bin: instrs[i].bin, addr: instrs[i].fall },
        )
}

/// A fact justified by `rule_live_call`.
pub open spec fn just_live_call(instrs: Seq<Instr>, f: Live) -> bool {
    exists|i: int|
        0 <= i < instrs.len() && (#[trigger] instrs[i]).is_call && f == (Live { bin: instrs[i].bin, addr: instrs[i].fall })
}

/// Derives the conclusions of `rule_live_call`.
pub fn derive_live_call(instrs: &Vec<Instr>) -> (out: Vec<Live>)
    ensures
        rule_live_call(instrs@, out@),
        forall|m: int| 0 <= m < out@.len() ==> just_live_call(instrs@, #[trigger] out@[m]),
{
    let mut out: Vec<Live> = Vec::new();
    let n = instrs.len();
    for i in 0..n
        invariant
            n == instrs@.len(),
            forall|i2: int|
                0 <= i2 < i && (#[trigger] instrs[i2]).is_call ==> out@.contains(
                    Live { bin: instrs[i2].bin, addr: instrs[i2].fall },
                ),
            forall|m: int| 0 <= m < out@.len() ==> just_live_call(instrs@, #[trigger] out@[m]),
    {
        if instrs[i].is_call {
        let f = Live { bin: instrs[i].bin, addr: instrs[i].fall };
        let ghost pre = out@;
        out.push(f);
        proof {
            assert(out@.last() == f);
            assert(forall|k: int| 0 <= k < pre.len() ==> out@[k] == pre[k]);
            assert(just_live_call(instrs@, f)) by {
                assert(f == (Live { bin: instrs[i as int].bin, addr: instrs[i as int].fall }));
            }
            assert forall|m: int| 0 <= m < out@.len() implies just_live_call(instrs@, #[trigger] out@[m]) by {
                if m < pre.len() {
                    assert(out@[m] == pre[m]);
                } else {
                    assert(out@[m] == f);
                }
            }
            assert forall|i2: int|
                0 <= i2 < i + 1 && (#[trigger] instrs[i2]).is_call implies out@.contains(
                Live { bin: instrs[i2].bin, addr: instrs[i2].fall },
            ) by {
                if i2 < i {
                    let k = choose|k: int|
                        0 <= k < pre.len() && pre[k] == (Live { bin: instrs[i2].bin, addr: instrs[i2].fall });
                    assert(out@[k] == pre[k]);
                }
            }
        }
        }
    }
    out
}

/// Every classified allocator or deallocator call site is stepped over
/// rather than entered.
pub open spec fn rule_skip_of(calls: Seq<CallAddr>, out_rel: Seq<CallAddr>) -> bool {
    forall|i: int|
        0 <= i < calls.len() ==> out_rel.contains(
            CallAddr { bin: (#[trigger] calls[i]).bin, addr: calls[i].addr },
        )
}

/// A fact justified by `rule_skip_of`.
pub open spec fn just_skip_of(calls: Seq<CallAddr>, f: CallAddr) -> bool {
    exists|i: int|
        0 <= i < calls.len() && f == (CallAddr { bin: (#[trigger] calls[i]).bin, addr: calls[i].addr })
}

/// Derives the conclusions of `rule_skip_of`.
pub fn derive_skip_of(calls: &Vec<CallAddr>) -> (out: Vec<CallAddr>)
    ensures
        rule_skip_of(calls@, out@),
        forall|m: int| 0 <= m < out@.len() ==> just_skip_of(calls@, #[trigger] out@[m]),
{
    let mut out: Vec<CallAddr> = Vec::new();
    let n = calls.len();
    for i in 0..n
        invariant
            n == calls@.len(),
            forall|i2: int|
                0 <= i2 < i ==> out@.contains(
                    CallAddr { bin: (#[trigger] calls[i2]).bin, addr: calls[i2].addr },
                ),
            forall|m: int| 0 <= m < out@.len() ==> just_skip_of(calls@, #[trigger] out@[m]),
    {
        let f = CallAddr { bin: calls[i].bin, addr: calls[i].addr };
        let ghost pre = out@;
        out.push(f);
        proof {
            assert(out@.last() == f);
            assert(forall|k: int| 0 <= k < pre.len() ==> out@[k] == pre[k]);
            assert(just_skip_of(calls@, f)) by {
                assert(f == (CallAddr { bin: (#[trigger] calls[i as int]).bin, addr: calls[i as int].addr }));
            }
            assert forall|m: int| 0 <= m < out@.len() implies just_skip_of(calls@, #[trigger] out@[m]) by {
                if m < pre.len() {
                    assert(out@[m] == pre[m]);
                } else {
                    assert(out@[m] == f);
                }
            }
            assert forall|i2: int|
                0 <= i2 < i + 1 implies out@.contains(
                CallAddr { bin: (#[trigger] calls[i2]).bin, addr: calls[i2].addr },
            ) by {
                if i2 < i {
                    let k = choose|k: int|
                        0 <= k < pre.len() && pre[k] == (CallAddr { bin: (#[trigger] calls[i2]).bin, addr: calls[i2].addr });
                    assert(out@[k] == pre[k]);
                }
            }
        }
    }
    out
}

/// Every non-call transfer is also a step-over edge.
pub open spec fn rule_succ_over_normal(succs: Seq<SuccFact>, out_rel: Seq<SuccOver>) -> bool {
    forall|i: int|
        0 <= i < succs.len() && !(#[trigger] succs[i]).is_call ==> out_rel.contains(
            SuccOver { bin: succs[i].bin, addr: succs[i].src, next: succs[i].sink },
        )
}

/// A fact justified by `rule_succ_over_normal`.
pub open spec fn just_succ_over_normal(succs: Seq<SuccFact>, f: SuccOver) -> bool {
    exists|i: int|
        0 <= i < succs.len() && !(#[trigger] succs[i]).is_call && f == (SuccOver { bin: succs[i].bin, addr: succs[i].src, next: succs[i].sink })
}

/// Derives the conclusions of `rule_succ_over_normal`.
pub fn derive_succ_over_normal(succs: &Vec<SuccFact>) -> (out: Vec<SuccOver>)
    ensures
        rule_succ_over_normal(succs@, out@),
        forall|m: int| 0 <= m < out@.len() ==> just_succ_over_normal(succs@, #[trigger] out@[m]),
{
    let mut out: Vec<SuccOver> = Vec::new();
    let n = succs.len();
    for i in 0..n
        invariant
            n == succs@.len(),
            forall|i2: int|
                0 <= i2 < i && !(#[trigger] succs[i2]).is_call ==> out@.contains(
                    SuccOver { bin: succs[i2].bin, addr: succs[i2].src, next: succs[i2].sink },
                ),
            forall|m: int| 0 <= m < out@.len() ==> just_succ_over_normal(succs@, #[trigger] out@[m]),
    {
        if !succs[i].is_call {
        let f = SuccOver { bin: succs[i].bin, addr: succs[i].src, next: succs[i].sink };
        let ghost pre = out@;
        out.push(f);
        proof {
            assert(out@.last() == f);
            assert(forall|k: int| 0 <= k < pre.len() ==> out@[k] == pre[k]);
            assert(just_succ_over_normal(succs@, f)) by {
                assert(f == (SuccOver { bin: succs[i as int].bin, addr: succs[i as int].src, next: succs[i as int].sink }));
            }
            assert forall|m: int| 0 <= m < out@.len() implies just_succ_over_normal(succs@, #[trigger] out@[m]) by {
                if m < pre.len() {
                    assert(out@[m] == pre[m]);
                } else {
                    assert(out@[m] == f);
                }
            }
            assert forall|i2: int|
                0 <= i2 < i + 1 && !(#[trigger] succs[i2]).is_call implies out@.contains(
                SuccOver { bin: succs[i2].bin, addr: succs[i2].src, next: succs[i2].sink },
            ) by {
                if i2 < i {
                    let k = choose|k: int|
                        0 <= k < pre.len() && pre[k] == (SuccOver { bin: succs[i2].bin, addr: succs[i2].src, next: succs[i2].sink });
                    assert(out@[k] == pre[k]);
                }
            }
        }
        }
    }
    out
}

/// Every internal call transfer is a call edge within its own binary.
pub open spec fn rule_call_site_internal(succs: Seq<SuccFact>, out_rel: Seq<CallSite>) -> bool {
    forall|i: int|
        0 <= i < succs.len() && (#[trigger] succs[i]).is_call ==> out_rel.contains(
            CallSite { src_bin: succs[i].bin, src_addr: succs[i].src, dst_bin: succs[i].bin, dst_addr: succs[i].sink },
        )
}

/// A fact justified by `rule_call_site_internal`.
pub open spec fn just_call_site_internal(succs: Seq<SuccFact>, f: CallSite) -> bool {
    exists|i: int|
        0 <= i < succs.len() && (#[trigger] succs[i]).is_call && f == (CallSite { src_bin: succs[i].bin, src_addr: succs[i].src, dst_bin: succs[i].bin, dst_addr: succs[i].sink })
}

/// Derives the conclusions of `rule_call_site_internal`.
pub fn derive_call_site_internal(succs: &Vec<SuccFact>) -> (out: Vec<CallSite>)
    ensures
        rule_call_site_internal(succs@, out@),
        forall|m: int| 0 <= m < out@.len() ==> just_call_site_internal(succs@, #[trigger] out@[m]),
{
    let mut out: Vec<CallSite> = Vec::new();
    let n = succs.len();
    for i in 0..n
        invariant
            n == succs@.len(),
            forall|i2: int|
                0 <= i2 < i && (#[trigger] succs[i2]).is_call ==> out@.contains(
                    CallSite { src_bin: succs[i2].bin, src_addr: succs[i2].src, dst_bin: succs[i2].bin, dst_addr: succs[i2].sink },
                ),
            forall|m: int| 0 <= m < out@.len() ==> just_call_site_internal(succs@, #[trigger] out@[m]),
    {
        if succs[i].is_call {
        let f = CallSite { src_bin: succs[i].bin, src_addr: succs[i].src, dst_bin: succs[i].bin, dst_addr: succs[i].sink };
        let ghost pre = out@;
        out.push(f);
        proof {
            assert(out@.last() == f);
            assert(forall|k: int| 0 <= k < pre.len() ==> out@[k] == pre[k]);
            assert(just_call_site_internal(succs@, f)) by {
                assert(f == (CallSite { src_bin: succs[i as int].bin, src_addr: succs[i as int].src, dst_bin: succs[i as int].bin, dst_addr: succs[i as int].sink }));
            }
            assert forall|m: int| 0 <= m < out@.len() implies just_call_site_internal(succs@, #[trigger] out@[m]) by {
                if m < pre.len() {
                    assert(out@[m] == pre[m]);
                } else {
                    assert(out@[m] == f);
                }
            }
            assert forall|i2: int|
                0 <= i2 < i + 1 && (#[trigger] succs[i2]).is_call implies out@.contains(
                CallSite { src_bin: succs[i2].bin, src_addr: succs[i2].src, dst_bin: succs[i2].bin, dst_addr: succs[i2].sink },
            ) by {
                if i2 < i {
                    let k = choose|k: int|
                        0 <= k < pre.len() && pre[k] == (CallSite { src_bin: succs[i2].bin, src_addr: succs[i2].src, dst_bin: succs[i2].bin, dst_addr: succs[i2].sink });
                    assert(out@[k] == pre[k]);
                }
            }
        }
        }
    }
    out
}

/// Every symbol entry starts a function at itself.
pub open spec fn rule_func_start(entries: Seq<Entry>, out_rel: Seq<FuncFact>) -> bool {
    forall|i: int|
        0 <= i < entries.len() ==> out_rel.contains(
            FuncFact { bin: (#[trigger] entries[i]).bin, entry: entries[i].start, addr: entries[i].start },
        )
}

/// A fact justified by `rule_func_start`.
pub open spec fn just_func_start(entries: Seq<Entry>, f: FuncFact) -> bool {
    exists|i: int|
        0 <= i < entries.len() && f == (FuncFact { bin: (#[trigger] entries[i]).bin, entry: entries[i].start, addr: entries[i].start })
}

/// Derives the conclusions of `rule_func_start`.
pub fn derive_func_start(entries: &Vec<Entry>) -> (out: Vec<FuncFact>)
    ensures
        rule_func_start(entries@, out@),
        forall|m: int| 0 <= m < out@.len() ==> just_func_start(entries@, #[trigger] out@[m]),
{
    let mut out: Vec<FuncFact> = Vec::new();
    let n = entries.len();
    for i in 0..n
        invariant
            n == entries@.len(),
            forall|i2: int|
                0 <= i2 < i ==> out@.contains(
                    FuncFact { bin: (#[trigger] entries[i2]).bin, entry: entries[i2].start, addr: entries[i2].start },
                ),
            forall|m: int| 0 <= m < out@.len() ==> just_func_start(entries@, #[trigger] out@[m]),
    {
        let f = FuncFact { bin: entries[i].bin, entry: entries[i].start, addr: entries[i].start };
        let ghost pre = out@;
        out.push(f);
        proof {
            assert(out@.last() == f);
            assert(forall|k: int| 0 <= k < pre.len() ==> out@[k] == pre[k]);
            assert(just_func_start(entries@, f)) by {
                assert(f == (FuncFact { bin: (#[trigger] entries[i as int]).bin, entry: entries[i as int].start, addr: entries[i as int].start }));
            }
            assert forall|m: int| 0 <= m < out@.len() implies just_func_start(entries@, #[trigger] out@[m]) by {
                if m < pre.len() {
                    assert(out@[m] == pre[m]);
                } else {
                    assert(out@[m] == f);
                }
            }
            assert forall|i2: int|
                0 <= i2 < i + 1 implies out@.contains(
                FuncFact { bin: (#[trigger] entries[i2]).bin, entry: entries[i2].start, addr: entries[i2].start },
            ) by {
                if i2 < i {
                    let k = choose|k: int|
                        0 <= k < pre.len() && pre[k] == (FuncFact { bin: (#[trigger] entries[i2]).bin, entry: entries[i2].start, addr: entries[i2].start });
                    assert(out@[k] == pre[k]);
                }
            }
        }
    }
    out
}

// ---------------------------------------------------------------------------
// External routine names
// ---------------------------------------------------------------------------

/// The names the detector recognizes as deallocators.
pub open spec fn is_free_name_spec(s: Seq<char>) -> bool {
    s == "free"@ || s == "qfree"@ || s == "g_free"@
}

/// Executable form of `is_free_name_spec`.
pub fn is_free_name(s: &String) -> (r: bool)
    ensures
        r == is_free_name_spec(s@),
{
    let a: String = "free".to_owned();
    let b: String = "qfree".to_owned();
    let c: String = "g_free".to_owned();
    *s == a || *s == b || *s == c
}

/// A byte sequence occurring inside another.
pub open spec fn bytes_contain(h: Seq<u8>, n: Seq<u8>) -> bool {
    exists|i: int| 0 <= i && i + n.len() <= h.len() && #[trigger] h.subrange(i, i + n.len()) == n
}

/// Executable substring search over byte slices.
pub fn bytes_contain_exec(h: &[u8], n: &[u8]) -> (r: bool)
    ensures
        r == bytes_contain(h@, n@),
{
    if n.len() > h.len() {
        proof {
            assert(!bytes_contain(h@, n@));
        }
        return false;
    }
    if n.len() == 0 {
        proof {
            assert(bytes_contain(h@, n@)) by {
                assert(h@.subrange(0, 0 + n@.len() as int) =~= n@);
            }
        }
        return true;
    }
    let hlen = h.len();
    let last = hlen - n.len();
    let mut i: usize = 0;
    while i <= last
        invariant
            hlen == h@.len(),
            1 <= n@.len() <= h@.len(),
            last == hlen - n.len(),
            i <= last + 1,
            forall|i2: int| 0 <= i2 < i ==> #[trigger] h@.subrange(i2, i2 + n@.len()) != n@,
        decreases last + 1 - i,
    {
        let m = n.len();
        let mut matched = true;
        let mut j: usize = 0;
        while j < m
            invariant
                m == n@.len(),
                1 <= m,
                hlen == h@.len(),
                i + m <= hlen,
                j <= m,
                matched == (forall|j2: int| 0 <= j2 < j ==> h@[i + j2] == n@[j2]),
            decreases m - j,
        {
            if h[i + j] != n[j] {
                proof {
                    assert(h@[i + j] != n@[j as int]);
                }
                matched = false;
                j = m;
            } else {
                proof {
                    assert(h@[i + j] == n@[j as int]);
                }
                j = j + 1;
            }
        }
        if matched {
            proof {
                assert(h@.subrange(i as int, i + n@.len()) =~= n@);
            }
            return true;
        }
        proof {
            if h@.subrange(i as int, i + n@.len()) == n@ {
                assert(forall|j2: int|
                    0 <= j2 < n@.len() ==> h@.subrange(i as int, i + n@.len())[j2] == n@[j2]);
                assert(forall|j2: int| 0 <= j2 < n@.len() ==> h@[i + j2] == n@[j2]);
                assert(false);
            }
        }
        i = i + 1;
    }
    proof {
        if bytes_contain(h@, n@) {
            let w = choose|w: int| 0 <= w && w + n@.len() <= h@.len() && #[trigger] h@.subrange(w, w + n@.len()) == n@;
            assert(false);
        }
    }
    false
}

/// The names the detector recognizes as allocators: anything mentioning
/// the standard allocation routines.
pub open spec fn is_malloc_name_spec(s: Seq<char>) -> bool {
    bytes_contain(vstd::utf8::encode_utf8(s), vstd::utf8::encode_utf8("malloc"@)) || bytes_contain(
        vstd::utf8::encode_utf8(s),
        vstd::utf8::encode_utf8("calloc"@),
    )
}

/// Executable form of `is_malloc_name_spec`.
pub fn is_malloc_name(s: &String) -> (r: bool)
    ensures
        r == is_malloc_name_spec(s@),
{
    let hay = s.as_str().as_bytes();
    bytes_contain_exec(hay, "malloc".as_bytes()) || bytes_contain_exec(hay, "calloc".as_bytes())
}

// ---------------------------------------------------------------------------
// Rules: successor resolution
// ---------------------------------------------------------------------------

/// The successor set of one instruction record.
pub open spec fn succs_of(ins: Instr) -> Seq<u64> {
    crate::analyses::successors_spec(ins.sema, ins.fall)
}

/// Every resolved successor of every instruction is a transfer fact,
/// carrying the instruction's call classification.
pub open spec fn rule_sema_succ(instrs: Seq<Instr>, out_rel: Seq<SuccFact>) -> bool {
    forall|i: int, k: int|
        #![trigger succs_of(instrs[i])[k]]
        0 <= i < instrs.len() && 0 <= k < succs_of(instrs[i]).len() ==> out_rel.contains(
            SuccFact {
                bin: instrs[i].bin,
                src: instrs[i].addr,
                sink: succs_of(instrs[i])[k],
                is_call: instrs[i].is_call,
            },
        )
}

/// A fact justified by `rule_sema_succ`.
pub open spec fn just_sema_succ(instrs: Seq<Instr>, f: SuccFact) -> bool {
    exists|i: int, k: int|
        #![trigger succs_of(instrs[i])[k]]
        0 <= i < instrs.len() && 0 <= k < succs_of(instrs[i]).len() && f == (SuccFact {
            bin: instrs[i].bin,
            src: instrs[i].addr,
            sink: succs_of(instrs[i])[k],
            is_call: instrs[i].is_call,
        })
}

/// Derives the conclusions of `rule_sema_succ`.
pub fn derive_sema_succ(instrs: &Vec<Instr>) -> (out: Vec<SuccFact>)
    ensures
        rule_sema_succ(instrs@, out@),
        forall|m: int| 0 <= m < out@.len() ==> just_sema_succ(instrs@, #[trigger] out@[m]),
{
    let mut out: Vec<SuccFact> = Vec::new();
    let n = instrs.len();
    for i in 0..n
        invariant
            n == instrs@.len(),
            forall|i2: int, k: int|
                #![trigger succs_of(instrs@[i2])[k]]
                0 <= i2 < i && 0 <= k < succs_of(instrs@[i2]).len() ==> out@.contains(
                    SuccFact {
                        bin: instrs@[i2].bin,
                        src: instrs@[i2].addr,
                        sink: succs_of(instrs@[i2])[k],
                        is_call: instrs@[i2].is_call,
                    },
                ),
            forall|m: int| 0 <= m < out@.len() ==> just_sema_succ(instrs@, #[trigger] out@[m]),
    {
        let sinks = crate::analyses::successors(&instrs[i].sema, instrs[i].fall);
        let m = sinks.len();
        for k in 0..m
            invariant
                n == instrs@.len(),
                i < n,
                m == sinks@.len(),
                sinks@ == succs_of(instrs@[i as int]),
                forall|i2: int, k2: int|
                    #![trigger succs_of(instrs@[i2])[k2]]
                    0 <= i2 < i && 0 <= k2 < succs_of(instrs@[i2]).len() ==> out@.contains(
                        SuccFact {
                            bin: instrs@[i2].bin,
                            src: instrs@[i2].addr,
                            sink: succs_of(instrs@[i2])[k2],
                            is_call: instrs@[i2].is_call,
                        },
                    ),
                forall|k2: int|
                    0 <= k2 < k ==> out@.contains(
                        SuccFact {
                            bin: instrs@[i as int].bin,
                            src: instrs@[i as int].addr,
                            sink: succs_of(instrs@[i as int])[k2],
                            is_call: instrs@[i as int].is_call,
                        },
                    ),
                forall|m2: int| 0 <= m2 < out@.len() ==> just_sema_succ(instrs@, #[trigger] out@[m2]),
        {
            let f = SuccFact {
                bin: instrs[i].bin,
                src: instrs[i].addr,
                sink: sinks[k],
                is_call: instrs[i].is_call,
            };
            let ghost pre = out@;
            out.push(f);
            proof {
                assert(out@.last() == f);
                assert(forall|q: int| 0 <= q < pre.len() ==> out@[q] == pre[q]);
                assert(just_sema_succ(instrs@, f)) by {
                    assert(succs_of(instrs@[i as int])[k as int] == f.sink);
                }
                assert forall|m2: int|
                    0 <= m2 < out@.len() implies just_sema_succ(instrs@, #[trigger] out@[m2]) by {
                    if m2 < pre.len() {
                        assert(out@[m2] == pre[m2]);
                    } else {
                        assert(out@[m2] == f);
                    }
                }
                assert forall|i2: int, k2: int|
                    #![trigger succs_of(instrs@[i2])[k2]]
                    0 <= i2 < i && 0 <= k2 < succs_of(instrs@[i2]).len() implies out@.contains(
                    SuccFact {
                        bin: instrs@[i2].bin,
                        src: instrs@[i2].addr,
                        sink: succs_of(instrs@[i2])[k2],
                        is_call: instrs@[i2].is_call,
                    },
                ) by {
                    let g = SuccFact {
                        bin: instrs@[i2].bin,
                        src: instrs@[i2].addr,
                        sink: succs_of(instrs@[i2])[k2],
                        is_call: instrs@[i2].is_call,
                    };
                    let q = choose|q: int| 0 <= q < pre.len() && pre[q] == g;
                    assert(out@[q] == g);
                }
                assert forall|k2: int|
                    0 <= k2 < k + 1 implies out@.contains(
                    SuccFact {
                        bin: instrs@[i as int].bin,
                        src: instrs@[i as int].addr,
                        sink: succs_of(instrs@[i as int])[k2],
                        is_call: instrs@[i as int].is_call,
                    },
                ) by {
                    let g = SuccFact {
                        bin: instrs@[i as int].bin,
                        src: instrs@[i as int].addr,
                        sink: succs_of(instrs@[i as int])[k2],
                        is_call: instrs@[i as int].is_call,
                    };
                    if k2 < k {
                        let q = choose|q: int| 0 <= q < pre.len() && pre[q] == g;
                        assert(out@[q] == g);
                    } else {
                        assert(out@.last() == g);
                    }
                }
            }
        }
    }
    out
}

/// A call instruction whose transfer is a computed jump steps over to its
/// own fallthrough as a non-call edge.
pub open spec fn rule_skip_computed(instrs: Seq<Instr>, out_rel: Seq<SuccFact>) -> bool {
    forall|i: int|
        0 <= i < instrs.len() && (#[trigger] instrs[i]).is_call && crate::analyses::computed_jump_spec(
            instrs[i].sema.stmts@,
        ) ==> out_rel.contains(
            SuccFact { bin: instrs[i].bin, src: instrs[i].addr, sink: instrs[i].fall, is_call: false },
        )
}

/// A fact justified by `rule_skip_computed`.
pub open spec fn just_skip_computed(instrs: Seq<Instr>, f: SuccFact) -> bool {
    exists|i: int|
        0 <= i < instrs.len() && (#[trigger] instrs[i]).is_call && crate::analyses::computed_jump_spec(
            instrs[i].sema.stmts@,
        ) && f == (SuccFact {
            bin: instrs[i].bin,
            src: instrs[i].addr,
            sink: instrs[i].fall,
            is_call: false,
        })
}

/// Derives the conclusions of `rule_skip_computed`.
pub fn derive_skip_computed(instrs: &Vec<Instr>) -> (out: Vec<SuccFact>)
    ensures
        rule_skip_computed(instrs@, out@),
        forall|m: int| 0 <= m < out@.len() ==> just_skip_computed(instrs@, #[trigger] out@[m]),
{
    let mut out: Vec<SuccFact> = Vec::new();
    let n = instrs.len();
    for i in 0..n
        invariant
            n == instrs@.len(),
            forall|i2: int|
                0 <= i2 < i && (#[trigger] instrs@[i2]).is_call
                    && crate::analyses::computed_jump_spec(instrs@[i2].sema.stmts@) ==> out@.contains(
                    SuccFact {
                        bin: instrs@[i2].bin,
                        src: instrs@[i2].addr,
                        sink: instrs@[i2].fall,
                        is_call: false,
                    },
                ),
            forall|m: int| 0 <= m < out@.len() ==> just_skip_computed(instrs@, #[trigger] out@[m]),
    {
        if instrs[i].is_call && crate::analyses::is_computed_jump(&instrs[i].sema) {
            let f = SuccFact {
                bin: instrs[i].bin,
                src: instrs[i].addr,
                sink: instrs[i].fall,
                is_call: false,
            };
            let ghost pre = out@;
            out.push(f);
            proof {
                assert(out@.last() == f);
                assert(forall|q: int| 0 <= q < pre.len() ==> out@[q] == pre[q]);
                assert(just_skip_computed(instrs@, f)) by {
                    assert((#[trigger] instrs@[i as int]).is_call);
                }
                assert forall|m2: int|
                    0 <= m2 < out@.len() implies just_skip_computed(instrs@, #[trigger] out@[m2]) by {
                    if m2 < pre.len() {
                        assert(out@[m2] == pre[m2]);
                    } else {
                        assert(out@[m2] == f);
                    }
                }
                assert forall|i2: int|
                    0 <= i2 < i + 1 && (#[trigger] instrs@[i2]).is_call
                        && crate::analyses::computed_jump_spec(instrs@[i2].sema.stmts@) implies out@.contains(
                    SuccFact {
                        bin: instrs@[i2].bin,
                        src: instrs@[i2].addr,
                        sink: instrs@[i2].fall,
                        is_call: false,
                    },
                ) by {
                    if i2 < i {
                        let g = SuccFact {
                            bin: instrs@[i2].bin,
                            src: instrs@[i2].addr,
                            sink: instrs@[i2].fall,
                            is_call: false,
                        };
                        let q = choose|q: int| 0 <= q < pre.len() && pre[q] == g;
                        assert(out@[q] == g);
                    }
                }
            }
        }
    }
    out
}

// ---------------------------------------------------------------------------
// Rules: call classification and interprocedural edges
// ---------------------------------------------------------------------------

/// A call into an import stub whose routine is a recognized deallocator
/// classifies the call site as a free call.
pub open spec fn rule_free_call(link_pads: Seq<LinkPad>, succs: Seq<SuccFact>, out_rel: Seq<CallAddr>) -> bool {
    forall|i: int, j: int|
        #![trigger link_pads[i], succs[j]]
        0 <= i < link_pads.len() && 0 <= j < succs.len() && (succs[j].bin == link_pads[i].bin && succs[j].sink == link_pads[i].addr && succs[j].is_call && is_free_name_spec(link_pads[i].name@)) ==> out_rel.contains(
            CallAddr { bin: link_pads[i].bin, addr: succs[j].src },
        )
}

/// A fact justified by `rule_free_call`.
pub open spec fn just_free_call(link_pads: Seq<LinkPad>, succs: Seq<SuccFact>, f: CallAddr) -> bool {
    exists|i: int, j: int|
        #![trigger link_pads[i], succs[j]]
        0 <= i < link_pads.len() && 0 <= j < succs.len() && (succs[j].bin == link_pads[i].bin && succs[j].sink == link_pads[i].addr && succs[j].is_call && is_free_name_spec(link_pads[i].name@)) && f == (CallAddr { bin: link_pads[i].bin, addr: succs[j].src })
}

/// Derives the conclusions of `rule_free_call`.
pub fn derive_free_call(link_pads: &Vec<LinkPad>, succs: &Vec<SuccFact>) -> (out: Vec<CallAddr>)
    ensures
        rule_free_call(link_pads@, succs@, out@),
        forall|m: int| 0 <= m < out@.len() ==> just_free_call(link_pads@, succs@, #[trigger] out@[m]),
{
    let mut out: Vec<CallAddr> = Vec::new();
    let na = link_pads.len();
    for i in 0..na
        invariant
            na == link_pads@.len(),
            forall|i2: int, j2: int|
                #![trigger link_pads@[i2], succs@[j2]]
                0 <= i2 < i && 0 <= j2 < succs@.len() && (succs@[j2].bin == link_pads@[i2].bin && succs@[j2].sink == link_pads@[i2].addr && succs@[j2].is_call && is_free_name_spec(link_pads@[i2].name@)) ==> out@.contains(
                    CallAddr { bin: link_pads@[i2].bin, addr: succs@[j2].src },
                ),
            forall|m: int| 0 <= m < out@.len() ==> just_free_call(link_pads@, succs@, #[trigger] out@[m]),
    {
        let nb = succs.len();
        for j in 0..nb
            invariant
                na == link_pads@.len(),
                i < na,
                nb == succs@.len(),
                forall|i2: int, j2: int|
                    #![trigger link_pads@[i2], succs@[j2]]
                    0 <= i2 < i && 0 <= j2 < succs@.len() && (succs@[j2].bin == link_pads@[i2].bin && succs@[j2].sink == link_pads@[i2].addr && succs@[j2].is_call && is_free_name_spec(link_pads@[i2].name@)) ==> out@.contains(
                        CallAddr { bin: link_pads@[i2].bin, addr: succs@[j2].src },
                    ),
                forall|j2: int|
                    0 <= j2 < j && (succs@[j2].bin == link_pads@[i as int].bin && succs@[j2].sink == link_pads@[i as int].addr && succs@[j2].is_call && is_free_name_spec(link_pads@[i as int].name@)) ==> out@.contains(
                        CallAddr { bin: link_pads@[i as int].bin, addr: succs@[j2].src },
                    ),
                forall|m: int| 0 <= m < out@.len() ==> just_free_call(link_pads@, succs@, #[trigger] out@[m]),
        {
            if succs[j].bin == link_pads[i].bin && succs[j].sink == link_pads[i].addr && succs[j].is_call && is_free_name(&link_pads[i].name) {
                let f = CallAddr { bin: link_pads[i].bin, addr: succs[j].src };
                let ghost pre = out@;
                out.push(f);
                proof {
                    assert(out@.last() == f);
                    assert(forall|q: int| 0 <= q < pre.len() ==> out@[q] == pre[q]);
                    assert(just_free_call(link_pads@, succs@, f)) by {
                        assert((succs@[j as int].bin == link_pads@[i as int].bin && succs@[j as int].sink == link_pads@[i as int].addr && succs@[j as int].is_call && is_free_name_spec(link_pads@[i as int].name@)));
                    }
                    assert forall|m2: int|
                        0 <= m2 < out@.len() implies just_free_call(link_pads@, succs@, #[trigger] out@[m2]) by {
                        if m2 < pre.len() {
                            assert(out@[m2] == pre[m2]);
                        } else {
                            assert(out@[m2] == f);
                        }
                    }
                    assert forall|i2: int, j2: int|
                        #![trigger link_pads@[i2], succs@[j2]]
                        0 <= i2 < i && 0 <= j2 < succs@.len() && (succs@[j2].bin == link_pads@[i2].bin && succs@[j2].sink == link_pads@[i2].addr && succs@[j2].is_call && is_free_name_spec(link_pads@[i2].name@)) implies out@.contains(
                        CallAddr { bin: link_pads@[i2].bin, addr: succs@[j2].src },
                    ) by {
                        let g = CallAddr { bin: link_pads@[i2].bin, addr: succs@[j2].src };
                        let q = choose|q: int| 0 <= q < pre.len() && pre[q] == g;
                        assert(out@[q] == g);
                    }
                    assert forall|j2: int|
                        0 <= j2 < j + 1 && (succs@[j2].bin == link_pads@[i as int].bin && succs@[j2].sink == link_pads@[i as int].addr && succs@[j2].is_call && is_free_name_spec(link_pads@[i as int].name@)) implies out@.contains(
                        CallAddr { bin: link_pads@[i as int].bin, addr: succs@[j2].src },
                    ) by {
                        let g = CallAddr { bin: link_pads@[i as int].bin, addr: succs@[j2].src };
                        if j2 < j {
                            let q = choose|q: int| 0 <= q < pre.len() && pre[q] == g;
                            assert(out@[q] == g);
                        } else {
                            assert(out@.last() == g);
                        }
                    }
                }
            }
        }
    }
    out
}

/// A call into an import stub whose routine is a recognized allocator
/// classifies the call site as an allocation call.
pub open spec fn rule_malloc_call(link_pads: Seq<LinkPad>, succs: Seq<SuccFact>, out_rel: Seq<CallAddr>) -> bool {
    forall|i: int, j: int|
        #![trigger link_pads[i], succs[j]]
        0 <= i < link_pads.len() && 0 <= j < succs.len() && (succs[j].bin == link_pads[i].bin && succs[j].sink == link_pads[i].addr && succs[j].is_call && is_malloc_name_spec(link_pads[i].name@)) ==> out_rel.contains(
            CallAddr { bin: link_pads[i].bin, addr: succs[j].src },
        )
}

/// A fact justified by `rule_malloc_call`.
pub open spec fn just_malloc_call(link_pads: Seq<LinkPad>, succs: Seq<SuccFact>, f: CallAddr) -> bool {
    exists|i: int, j: int|
        #![trigger link_pads[i], succs[j]]
        0 <= i < link_pads.len() && 0 <= j < succs.len() && (succs[j].bin == link_pads[i].bin && succs[j].sink == link_pads[i].addr && succs[j].is_call && is_malloc_name_spec(link_pads[i].name@)) && f == (CallAddr { bin: link_pads[i].bin, addr: succs[j].src })
}

/// Derives the conclusions of `rule_malloc_call`.
pub fn derive_malloc_call(link_pads: &Vec<LinkPad>, succs: &Vec<SuccFact>) -> (out: Vec<CallAddr>)
    ensures
        rule_malloc_call(link_pads@, succs@, out@),
        forall|m: int| 0 <= m < out@.len() ==> just_malloc_call(link_pads@, succs@, #[trigger] out@[m]),
{
    let mut out: Vec<CallAddr> = Vec::new();
    let na = link_pads.len();
    for i in 0..na
        invariant
            na == link_pads@.len(),
            forall|i2: int, j2: int|
                #![trigger link_pads@[i2], succs@[j2]]
                0 <= i2 < i && 0 <= j2 < succs@.len() && (succs@[j2].bin == link_pads@[i2].bin && succs@[j2].sink == link_pads@[i2].addr && succs@[j2].is_call && is_malloc_name_spec(link_pads@[i2].name@)) ==> out@.contains(
                    CallAddr { bin: link_pads@[i2].bin, addr: succs@[j2].src },
                ),
            forall|m: int| 0 <= m < out@.len() ==> just_malloc_call(link_pads@, succs@, #[trigger] out@[m]),
    {
        let nb = succs.len();
        for j in 0..nb
            invariant
                na == link_pads@.len(),
                i < na,
                nb == succs@.len(),
                forall|i2: int, j2: int|
                    #![trigger link_pads@[i2], succs@[j2]]
                    0 <= i2 < i && 0 <= j2 < succs@.len() && (succs@[j2].bin == link_pads@[i2].bin && succs@[j2].sink == link_pads@[i2].addr && succs@[j2].is_call && is_malloc_name_spec(link_pads@[i2].name@)) ==> out@.contains(
                        CallAddr { bin: link_pads@[i2].bin, addr: succs@[j2].src },
                    ),
                forall|j2: int|
                    0 <= j2 < j && (succs@[j2].bin == link_pads@[i as int].bin && succs@[j2].sink == link_pads@[i as int].addr && succs@[j2].is_call && is_malloc_name_spec(link_pads@[i as int].name@)) ==> out@.contains(
                        CallAddr { bin: link_pads@[i as int].bin, addr: succs@[j2].src },
                    ),
                forall|m: int| 0 <= m < out@.len() ==> just_malloc_call(link_pads@, succs@, #[trigger] out@[m]),
        {
            if succs[j].bin == link_pads[i].bin && succs[j].sink == link_pads[i].addr && succs[j].is_call && is_malloc_name(&link_pads[i].name) {
                let f = CallAddr { bin: link_pads[i].bin, addr: succs[j].src };
                let ghost pre = out@;
                out.push(f);
                proof {
                    assert(out@.last() == f);
                    assert(forall|q: int| 0 <= q < pre.len() ==> out@[q] == pre[q]);
                    assert(just_malloc_call(link_pads@, succs@, f)) by {
                        assert((succs@[j as int].bin == link_pads@[i as int].bin && succs@[j as int].sink == link_pads@[i as int].addr && succs@[j as int].is_call && is_malloc_name_spec(link_pads@[i as int].name@)));
                    }
                    assert forall|m2: int|
                        0 <= m2 < out@.len() implies just_malloc_call(link_pads@, succs@, #[trigger] out@[m2]) by {
                        if m2 < pre.len() {
                            assert(out@[m2] == pre[m2]);
                        } else {
                            assert(out@[m2] == f);
                        }
                    }
                    assert forall|i2: int, j2: int|
                        #![trigger link_pads@[i2], succs@[j2]]
                        0 <= i2 < i && 0 <= j2 < succs@.len() && (succs@[j2].bin == link_pads@[i2].bin && succs@[j2].sink == link_pads@[i2].addr && succs@[j2].is_call && is_malloc_name_spec(link_pads@[i2].name@)) implies out@.contains(
                        CallAddr { bin: link_pads@[i2].bin, addr: succs@[j2].src },
                    ) by {
                        let g = CallAddr { bin: link_pads@[i2].bin, addr: succs@[j2].src };
                        let q = choose|q: int| 0 <= q < pre.len() && pre[q] == g;
                        assert(out@[q] == g);
                    }
                    assert forall|j2: int|
                        0 <= j2 < j + 1 && (succs@[j2].bin == link_pads@[i as int].bin && succs@[j2].sink == link_pads@[i as int].addr && succs@[j2].is_call && is_malloc_name_spec(link_pads@[i as int].name@)) implies out@.contains(
                        CallAddr { bin: link_pads@[i as int].bin, addr: succs@[j2].src },
                    ) by {
                        let g = CallAddr { bin: link_pads@[i as int].bin, addr: succs@[j2].src };
                        if j2 < j {
                            let q = choose|q: int| 0 <= q < pre.len() && pre[q] == g;
                            assert(out@[q] == g);
                        } else {
                            assert(out@.last() == g);
                        }
                    }
                }
            }
        }
    }
    out
}

/// A call into the byte-printing routine reads its first argument, which
/// the detector treats as a genuine use of the passed location.
pub open spec fn rule_puts_uses(link_pads: Seq<LinkPad>, succs: Seq<SuccFact>, out_rel: Seq<FuncUse>) -> bool {
    forall|i: int, j: int|
        #![trigger link_pads[i], succs[j]]
        0 <= i < link_pads.len() && 0 <= j < succs.len() && (succs[j].bin == link_pads[i].bin && succs[j].sink == link_pads[i].addr && succs[j].is_call && link_pads[i].name@ == "puts"@) ==> out_rel.contains(
            FuncUse { bin: link_pads[i].bin, addr: succs[j].src, var: crate::var::spec_reg(crate::var::REG_ARG0) },
        )
}

/// A fact justified by `rule_puts_uses`.
pub open spec fn just_puts_uses(link_pads: Seq<LinkPad>, succs: Seq<SuccFact>, f: FuncUse) -> bool {
    exists|i: int, j: int|
        #![trigger link_pads[i], succs[j]]
        0 <= i < link_pads.len() && 0 <= j < succs.len() && (succs[j].bin == link_pads[i].bin && succs[j].sink == link_pads[i].addr && succs[j].is_call && link_pads[i].name@ == "puts"@) && f == (FuncUse { bin: link_pads[i].bin, addr: succs[j].src, var: crate::var::spec_reg(crate::var::REG_ARG0) })
}

/// Derives the conclusions of `rule_puts_uses`.
pub fn derive_puts_uses(link_pads: &Vec<LinkPad>, succs: &Vec<SuccFact>) -> (out: Vec<FuncUse>)
    ensures
        rule_puts_uses(link_pads@, succs@, out@),
        forall|m: int| 0 <= m < out@.len() ==> just_puts_uses(link_pads@, succs@, #[trigger] out@[m]),
{
    let mut out: Vec<FuncUse> = Vec::new();
    let na = link_pads.len();
    for i in 0..na
        invariant
            na == link_pads@.len(),
            forall|i2: int, j2: int|
                #![trigger link_pads@[i2], succs@[j2]]
                0 <= i2 < i && 0 <= j2 < succs@.len() && (succs@[j2].bin == link_pads@[i2].bin && succs@[j2].sink == link_pads@[i2].addr && succs@[j2].is_call && link_pads@[i2].name@ == "puts"@) ==> out@.contains(
                    FuncUse { bin: link_pads@[i2].bin, addr: succs@[j2].src, var: crate::var::spec_reg(crate::var::REG_ARG0) },
                ),
            forall|m: int| 0 <= m < out@.len() ==> just_puts_uses(link_pads@, succs@, #[trigger] out@[m]),
    {
        let puts_name: String = "puts".to_owned();
        let nb = succs.len();
        for j in 0..nb
            invariant
                puts_name@ == "puts"@,
                na == link_pads@.len(),
                i < na,
                nb == succs@.len(),
                forall|i2: int, j2: int|
                    #![trigger link_pads@[i2], succs@[j2]]
                    0 <= i2 < i && 0 <= j2 < succs@.len() && (succs@[j2].bin == link_pads@[i2].bin && succs@[j2].sink == link_pads@[i2].addr && succs@[j2].is_call && link_pads@[i2].name@ == "puts"@) ==> out@.contains(
                        FuncUse { bin: link_pads@[i2].bin, addr: succs@[j2].src, var: crate::var::spec_reg(crate::var::REG_ARG0) },
                    ),
                forall|j2: int|
                    0 <= j2 < j && (succs@[j2].bin == link_pads@[i as int].bin && succs@[j2].sink == link_pads@[i as int].addr && succs@[j2].is_call && link_pads@[i as int].name@ == "puts"@) ==> out@.contains(
                        FuncUse { bin: link_pads@[i as int].bin, addr: succs@[j2].src, var: crate::var::spec_reg(crate::var::REG_ARG0) },
                    ),
                forall|m: int| 0 <= m < out@.len() ==> just_puts_uses(link_pads@, succs@, #[trigger] out@[m]),
        {
            if succs[j].bin == link_pads[i].bin && succs[j].sink == link_pads[i].addr && succs[j].is_call && link_pads[i].name == puts_name {
                let f = FuncUse { bin: link_pads[i].bin, addr: succs[j].src, var: crate::var::get_arg0() };
                let ghost pre = out@;
                out.push(f);
                proof {
                    assert(out@.last() == f);
                    assert(forall|q: int| 0 <= q < pre.len() ==> out@[q] == pre[q]);
                    assert(just_puts_uses(link_pads@, succs@, f)) by {
                        assert((succs@[j as int].bin == link_pads@[i as int].bin && succs@[j as int].sink == link_pads@[i as int].addr && succs@[j as int].is_call && link_pads@[i as int].name@ == "puts"@));
                    }
                    assert forall|m2: int|
                        0 <= m2 < out@.len() implies just_puts_uses(link_pads@, succs@, #[trigger] out@[m2]) by {
                        if m2 < pre.len() {
                            assert(out@[m2] == pre[m2]);
                        } else {
                            assert(out@[m2] == f);
                        }
                    }
                    assert forall|i2: int, j2: int|
                        #![trigger link_pads@[i2], succs@[j2]]
                        0 <= i2 < i && 0 <= j2 < succs@.len() && (succs@[j2].bin == link_pads@[i2].bin && succs@[j2].sink == link_pads@[i2].addr && succs@[j2].is_call && link_pads@[i2].name@ == "puts"@) implies out@.contains(
                        FuncUse { bin: link_pads@[i2].bin, addr: succs@[j2].src, var: crate::var::spec_reg(crate::var::REG_ARG0) },
                    ) by {
                        let g = FuncUse { bin: link_pads@[i2].bin, addr: succs@[j2].src, var: crate::var::spec_reg(crate::var::REG_ARG0) };
                        let q = choose|q: int| 0 <= q < pre.len() && pre[q] == g;
                        assert(out@[q] == g);
                    }
                    assert forall|j2: int|
                        0 <= j2 < j + 1 && (succs@[j2].bin == link_pads@[i as int].bin && succs@[j2].sink == link_pads@[i as int].addr && succs@[j2].is_call && link_pads@[i as int].name@ == "puts"@) implies out@.contains(
                        FuncUse { bin: link_pads@[i as int].bin, addr: succs@[j2].src, var: crate::var::spec_reg(crate::var::REG_ARG0) },
                    ) by {
                        let g = FuncUse { bin: link_pads@[i as int].bin, addr: succs@[j2].src, var: crate::var::spec_reg(crate::var::REG_ARG0) };
                        if j2 < j {
                            let q = choose|q: int| 0 <= q < pre.len() && pre[q] == g;
                            assert(out@[q] == g);
                        } else {
                            assert(out@.last() == g);
                        }
                    }
                }
            }
        }
    }
    out
}

/// Every call into an import stub is stepped over: the callee's body is
/// not loaded.
pub open spec fn rule_skip_dyn(link_pads: Seq<LinkPad>, succs: Seq<SuccFact>, out_rel: Seq<CallAddr>) -> bool {
    forall|i: int, j: int|
        #![trigger link_pads[i], succs[j]]
        0 <= i < link_pads.len() && 0 <= j < succs.len() && (succs[j].bin == link_pads[i].bin && succs[j].sink == link_pads[i].addr && succs[j].is_call) ==> out_rel.contains(
            CallAddr { bin: link_pads[i].bin, addr: succs[j].src },
        )
}

/// A fact justified by `rule_skip_dyn`.
pub open spec fn just_skip_dyn(link_pads: Seq<LinkPad>, succs: Seq<SuccFact>, f: CallAddr) -> bool {
    exists|i: int, j: int|
        #![trigger link_pads[i], succs[j]]
        0 <= i < link_pads.len() && 0 <= j < succs.len() && (succs[j].bin == link_pads[i].bin && succs[j].sink == link_pads[i].addr && succs[j].is_call) && f == (CallAddr { bin: link_pads[i].bin, addr: succs[j].src })
}

/// Derives the conclusions of `rule_skip_dyn`.
pub fn derive_skip_dyn(link_pads: &Vec<LinkPad>, succs: &Vec<SuccFact>) -> (out: Vec<CallAddr>)
    ensures
        rule_skip_dyn(link_pads@, succs@, out@),
        forall|m: int| 0 <= m < out@.len() ==> just_skip_dyn(link_pads@, succs@, #[trigger] out@[m]),
{
    let mut out: Vec<CallAddr> = Vec::new();
    let na = link_pads.len();
    for i in 0..na
        invariant
            na == link_pads@.len(),
            forall|i2: int, j2: int|
                #![trigger link_pads@[i2], succs@[j2]]
                0 <= i2 < i && 0 <= j2 < succs@.len() && (succs@[j2].bin == link_pads@[i2].bin && succs@[j2].sink == link_pads@[i2].addr && succs@[j2].is_call) ==> out@.contains(
                    CallAddr { bin: link_pads@[i2].bin, addr: succs@[j2].src },
                ),
            forall|m: int| 0 <= m < out@.len() ==> just_skip_dyn(link_pads@, succs@, #[trigger] out@[m]),
    {
        let nb = succs.len();
        for j in 0..nb
            invariant
                na == link_pads@.len(),
                i < na,
                nb == succs@.len(),
                forall|i2: int, j2: int|
                    #![trigger link_pads@[i2], succs@[j2]]
                    0 <= i2 < i && 0 <= j2 < succs@.len() && (succs@[j2].bin == link_pads@[i2].bin && succs@[j2].sink == link_pads@[i2].addr && succs@[j2].is_call) ==> out@.contains(
                        CallAddr { bin: link_pads@[i2].bin, addr: succs@[j2].src },
                    ),
                forall|j2: int|
                    0 <= j2 < j && (succs@[j2].bin == link_pads@[i as int].bin && succs@[j2].sink == link_pads@[i as int].addr && succs@[j2].is_call) ==> out@.contains(
                        CallAddr { bin: link_pads@[i as int].bin, addr: succs@[j2].src },
                    ),
                forall|m: int| 0 <= m < out@.len() ==> just_skip_dyn(link_pads@, succs@, #[trigger] out@[m]),
        {
            if succs[j].bin == link_pads[i].bin && succs[j].sink == link_pads[i].addr && succs[j].is_call {
                let f = CallAddr { bin: link_pads[i].bin, addr: succs[j].src };
                let ghost pre = out@;
                out.push(f);
                proof {
                    assert(out@.last() == f);
                    assert(forall|q: int| 0 <= q < pre.len() ==> out@[q] == pre[q]);
                    assert(just_skip_dyn(link_pads@, succs@, f)) by {
                        assert((succs@[j as int].bin == link_pads@[i as int].bin && succs@[j as int].sink == link_pads@[i as int].addr && succs@[j as int].is_call));
                    }
                    assert forall|m2: int|
                        0 <= m2 < out@.len() implies just_skip_dyn(link_pads@, succs@, #[trigger] out@[m2]) by {
                        if m2 < pre.len() {
                            assert(out@[m2] == pre[m2]);
                        } else {
                            assert(out@[m2] == f);
                        }
                    }
                    assert forall|i2: int, j2: int|
                        #![trigger link_pads@[i2], succs@[j2]]
                        0 <= i2 < i && 0 <= j2 < succs@.len() && (succs@[j2].bin == link_pads@[i2].bin && succs@[j2].sink == link_pads@[i2].addr && succs@[j2].is_call) implies out@.contains(
                        CallAddr { bin: link_pads@[i2].bin, addr: succs@[j2].src },
                    ) by {
                        let g = CallAddr { bin: link_pads@[i2].bin, addr: succs@[j2].src };
                        let q = choose|q: int| 0 <= q < pre.len() && pre[q] == g;
                        assert(out@[q] == g);
                    }
                    assert forall|j2: int|
                        0 <= j2 < j + 1 && (succs@[j2].bin == link_pads@[i as int].bin && succs@[j2].sink == link_pads@[i as int].addr && succs@[j2].is_call) implies out@.contains(
                        CallAddr { bin: link_pads@[i as int].bin, addr: succs@[j2].src },
                    ) by {
                        let g = CallAddr { bin: link_pads@[i as int].bin, addr: succs@[j2].src };
                        if j2 < j {
                            let q = choose|q: int| 0 <= q < pre.len() && pre[q] == g;
                            assert(out@[q] == g);
                        } else {
                            assert(out@.last() == g);
                        }
                    }
                }
            }
        }
    }
    out
}

/// A function's span walks forward over step-over edges without leaving
/// the function.
pub open spec fn rule_func_walk(funcs: Seq<FuncFact>, succ_overs: Seq<SuccOver>, out_rel: Seq<FuncFact>) -> bool {
    forall|i: int, j: int|
        #![trigger funcs[i], succ_overs[j]]
        0 <= i < funcs.len() && 0 <= j < succ_overs.len() && (funcs[i].bin == succ_overs[j].bin && funcs[i].addr == succ_overs[j].addr) ==> out_rel.contains(
            FuncFact { bin: funcs[i].bin, entry: funcs[i].entry, addr: succ_overs[j].next },
        )
}

/// A fact justified by `rule_func_walk`.
pub open spec fn just_func_walk(funcs: Seq<FuncFact>, succ_overs: Seq<SuccOver>, f: FuncFact) -> bool {
    exists|i: int, j: int|
        #![trigger funcs[i], succ_overs[j]]
        0 <= i < funcs.len() && 0 <= j < succ_overs.len() && (funcs[i].bin == succ_overs[j].bin && funcs[i].addr == succ_overs[j].addr) && f == (FuncFact { bin: funcs[i].bin, entry: funcs[i].entry, addr: succ_overs[j].next })
}

/// Derives the conclusions of `rule_func_walk`.
pub fn derive_func_walk(funcs: &Vec<FuncFact>, succ_overs: &Vec<SuccOver>) -> (out: Vec<FuncFact>)
    ensures
        rule_func_walk(funcs@, succ_overs@, out@),
        forall|m: int| 0 <= m < out@.len() ==> just_func_walk(funcs@, succ_overs@, #[trigger] out@[m]),
{
    let mut out: Vec<FuncFact> = Vec::new();
    let na = funcs.len();
    for i in 0..na
        invariant
            na == funcs@.len(),
            forall|i2: int, j2: int|
                #![trigger funcs@[i2], succ_overs@[j2]]
                0 <= i2 < i && 0 <= j2 < succ_overs@.len() && (funcs@[i2].bin == succ_overs@[j2].bin && funcs@[i2].addr == succ_overs@[j2].addr) ==> out@.contains(
                    FuncFact { bin: funcs@[i2].bin, entry: funcs@[i2].entry, addr: succ_overs@[j2].next },
                ),
            forall|m: int| 0 <= m < out@.len() ==> just_func_walk(funcs@, succ_overs@, #[trigger] out@[m]),
    {
        let nb = succ_overs.len();
        for j in 0..nb
            invariant
                na == funcs@.len(),
                i < na,
                nb == succ_overs@.len(),
                forall|i2: int, j2: int|
                    #![trigger funcs@[i2], succ_overs@[j2]]
                    0 <= i2 < i && 0 <= j2 < succ_overs@.len() && (funcs@[i2].bin == succ_overs@[j2].bin && funcs@[i2].addr == succ_overs@[j2].addr) ==> out@.contains(
                        FuncFact { bin: funcs@[i2].bin, entry: funcs@[i2].entry, addr: succ_overs@[j2].next },
                    ),
                forall|j2: int|
                    0 <= j2 < j && (funcs@[i as int].bin == succ_overs@[j2].bin && funcs@[i as int].addr == succ_overs@[j2].addr) ==> out@.contains(
                        FuncFact { bin: funcs@[i as int].bin, entry: funcs@[i as int].entry, addr: succ_overs@[j2].next },
                    ),
                forall|m: int| 0 <= m < out@.len() ==> just_func_walk(funcs@, succ_overs@, #[trigger] out@[m]),
        {
            if succ_overs[j].bin == funcs[i].bin && succ_overs[j].addr == funcs[i].addr {
                let f = FuncFact { bin: funcs[i].bin, entry: funcs[i].entry, addr: succ_overs[j].next };
                let ghost pre = out@;
                out.push(f);
                proof {
                    assert(out@.last() == f);
                    assert(forall|q: int| 0 <= q < pre.len() ==> out@[q] == pre[q]);
                    assert(just_func_walk(funcs@, succ_overs@, f)) by {
                        assert((funcs@[i as int].bin == succ_overs@[j as int].bin && funcs@[i as int].addr == succ_overs@[j as int].addr));
                    }
                    assert forall|m2: int|
                        0 <= m2 < out@.len() implies just_func_walk(funcs@, succ_overs@, #[trigger] out@[m2]) by {
                        if m2 < pre.len() {
                            assert(out@[m2] == pre[m2]);
                        } else {
                            assert(out@[m2] == f);
                        }
                    }
                    assert forall|i2: int, j2: int|
                        #![trigger funcs@[i2], succ_overs@[j2]]
                        0 <= i2 < i && 0 <= j2 < succ_overs@.len() && (funcs@[i2].bin == succ_overs@[j2].bin && funcs@[i2].addr == succ_overs@[j2].addr) implies out@.contains(
                        FuncFact { bin: funcs@[i2].bin, entry: funcs@[i2].entry, addr: succ_overs@[j2].next },
                    ) by {
                        let g = FuncFact { bin: funcs@[i2].bin, entry: funcs@[i2].entry, addr: succ_overs@[j2].next };
                        let q = choose|q: int| 0 <= q < pre.len() && pre[q] == g;
                        assert(out@[q] == g);
                    }
                    assert forall|j2: int|
                        0 <= j2 < j + 1 && (funcs@[i as int].bin == succ_overs@[j2].bin && funcs@[i as int].addr == succ_overs@[j2].addr) implies out@.contains(
                        FuncFact { bin: funcs@[i as int].bin, entry: funcs@[i as int].entry, addr: succ_overs@[j2].next },
                    ) by {
                        let g = FuncFact { bin: funcs@[i as int].bin, entry: funcs@[i as int].entry, addr: succ_overs@[j2].next };
                        if j2 < j {
                            let q = choose|q: int| 0 <= q < pre.len() && pre[q] == g;
                            assert(out@[q] == g);
                        } else {
                            assert(out@.last() == g);
                        }
                    }
                }
            }
        }
    }
    out
}

/// A call site's step-over edge continues at the call instruction's own
/// fallthrough.
pub open spec fn rule_succ_over_skip(succs: Seq<SuccFact>, instrs: Seq<Instr>, out_rel: Seq<SuccOver>) -> bool {
    forall|i: int, j: int|
        #![trigger succs[i], instrs[j]]
        0 <= i < succs.len() && 0 <= j < instrs.len() && (succs[i].is_call && instrs[j].bin == succs[i].bin && instrs[j].addr == succs[i].src) ==> out_rel.contains(
            SuccOver { bin: succs[i].bin, addr: succs[i].src, next: instrs[j].fall },
        )
}

/// A fact justified by `rule_succ_over_skip`.
pub open spec fn just_succ_over_skip(succs: Seq<SuccFact>, instrs: Seq<Instr>, f: SuccOver) -> bool {
    exists|i: int, j: int|
        #![trigger succs[i], instrs[j]]
        0 <= i < succs.len() && 0 <= j < instrs.len() && (succs[i].is_call && instrs[j].bin == succs[i].bin && instrs[j].addr == succs[i].src) && f == (SuccOver { bin: succs[i].bin, addr: succs[i].src, next: instrs[j].fall })
}

/// Derives the conclusions of `rule_succ_over_skip`.
pub fn derive_succ_over_skip(succs: &Vec<SuccFact>, instrs: &Vec<Instr>) -> (out: Vec<SuccOver>)
    ensures
        rule_succ_over_skip(succs@, instrs@, out@),
        forall|m: int| 0 <= m < out@.len() ==> just_succ_over_skip(succs@, instrs@, #[trigger] out@[m]),
{
    let mut out: Vec<SuccOver> = Vec::new();
    let na = succs.len();
    for i in 0..na
        invariant
            na == succs@.len(),
            forall|i2: int, j2: int|
                #![trigger succs@[i2], instrs@[j2]]
                0 <= i2 < i && 0 <= j2 < instrs@.len() && (succs@[i2].is_call && instrs@[j2].bin == succs@[i2].bin && instrs@[j2].addr == succs@[i2].src) ==> out@.contains(
                    SuccOver { bin: succs@[i2].bin, addr: succs@[i2].src, next: instrs@[j2].fall },
                ),
            forall|m: int| 0 <= m < out@.len() ==> just_succ_over_skip(succs@, instrs@, #[trigger] out@[m]),
    {
        let nb = instrs.len();
        for j in 0..nb
            invariant
                na == succs@.len(),
                i < na,
                nb == instrs@.len(),
                forall|i2: int, j2: int|
                    #![trigger succs@[i2], instrs@[j2]]
                    0 <= i2 < i && 0 <= j2 < instrs@.len() && (succs@[i2].is_call && instrs@[j2].bin == succs@[i2].bin && instrs@[j2].addr == succs@[i2].src) ==> out@.contains(
                        SuccOver { bin: succs@[i2].bin, addr: succs@[i2].src, next: instrs@[j2].fall },
                    ),
                forall|j2: int|
                    0 <= j2 < j && (succs@[i as int].is_call && instrs@[j2].bin == succs@[i as int].bin && instrs@[j2].addr == succs@[i as int].src) ==> out@.contains(
                        SuccOver { bin: succs@[i as int].bin, addr: succs@[i as int].src, next: instrs@[j2].fall },
                    ),
                forall|m: int| 0 <= m < out@.len() ==> just_succ_over_skip(succs@, instrs@, #[trigger] out@[m]),
        {
            if succs[i].is_call && instrs[j].bin == succs[i].bin && instrs[j].addr == succs[i].src {
                let f = SuccOver { bin: succs[i].bin, addr: succs[i].src, next: instrs[j].fall };
                let ghost pre = out@;
                out.push(f);
                proof {
                    assert(out@.last() == f);
                    assert(forall|q: int| 0 <= q < pre.len() ==> out@[q] == pre[q]);
                    assert(just_succ_over_skip(succs@, instrs@, f)) by {
                        assert((succs@[i as int].is_call && instrs@[j as int].bin == succs@[i as int].bin && instrs@[j as int].addr == succs@[i as int].src));
                    }
                    assert forall|m2: int|
                        0 <= m2 < out@.len() implies just_succ_over_skip(succs@, instrs@, #[trigger] out@[m2]) by {
                        if m2 < pre.len() {
                            assert(out@[m2] == pre[m2]);
                        } else {
                            assert(out@[m2] == f);
                        }
                    }
                    assert forall|i2: int, j2: int|
                        #![trigger succs@[i2], instrs@[j2]]
                        0 <= i2 < i && 0 <= j2 < instrs@.len() && (succs@[i2].is_call && instrs@[j2].bin == succs@[i2].bin && instrs@[j2].addr == succs@[i2].src) implies out@.contains(
                        SuccOver { bin: succs@[i2].bin, addr: succs@[i2].src, next: instrs@[j2].fall },
                    ) by {
                        let g = SuccOver { bin: succs@[i2].bin, addr: succs@[i2].src, next: instrs@[j2].fall };
                        let q = choose|q: int| 0 <= q < pre.len() && pre[q] == g;
                        assert(out@[q] == g);
                    }
                    assert forall|j2: int|
                        0 <= j2 < j + 1 && (succs@[i as int].is_call && instrs@[j2].bin == succs@[i as int].bin && instrs@[j2].addr == succs@[i as int].src) implies out@.contains(
                        SuccOver { bin: succs@[i as int].bin, addr: succs@[i as int].src, next: instrs@[j2].fall },
                    ) by {
                        let g = SuccOver { bin: succs@[i as int].bin, addr: succs@[i as int].src, next: instrs@[j2].fall };
                        if j2 < j {
                            let q = choose|q: int| 0 <= q < pre.len() && pre[q] == g;
                            assert(out@[q] == g);
                        } else {
                            assert(out@.last() == g);
                        }
                    }
                }
            }
        }
    }
    out
}

// ---------------------------------------------------------------------------
// Rules: path-alias seeding and sinks
// ---------------------------------------------------------------------------

/// Finds the unique instruction record at an address, if one exists.
pub fn find_instr(instrs: &Vec<Instr>, bin: u64, addr: u64) -> (r: Option<usize>)
    ensures
        match r {
            Some(k) => 0 <= k < instrs@.len() && instrs@[k as int].bin == bin
                && instrs@[k as int].addr == addr,
            None => forall|k: int|
                0 <= k < instrs@.len() ==> !((#[trigger] instrs@[k]).bin == bin
                    && instrs@[k].addr == addr),
        },
{
    let n = instrs.len();
    for k in 0..n
        invariant
            n == instrs@.len(),
            forall|k2: int|
                0 <= k2 < k ==> !((#[trigger] instrs@[k2]).bin == bin && instrs@[k2].addr == addr),
    {
        if instrs[k].bin == bin && instrs[k].addr == addr {
            return Some(k);
        }
    }
    None
}

/// The empty chop as a spec value.
pub open spec fn empty_chop() -> Chop {
    Chop { count: 0, s0: 0, s1: 0, s2: 0 }
}

/// Every recognized allocation call seeds a fresh, unfreed path-alias
/// state at the call's fallthrough, tracking the return-value register
/// under the caller's (empty) context and an empty chop.
pub open spec fn rule_flow_start(malloc_calls: Seq<CallAddr>, instrs: Seq<Instr>, out_rel: Seq<PathAlias>) -> bool {
    forall|i: int, j: int|
        #![trigger malloc_calls[i], instrs[j]]
        0 <= i < malloc_calls.len() && 0 <= j < instrs.len() && (instrs[j].bin == malloc_calls[i].bin && instrs[j].addr == malloc_calls[i].addr) ==> out_rel.contains(
            PathAlias { src_bin: malloc_calls[i].bin, src_addr: malloc_calls[i].addr, alias_set: 0, stack: 0, chop: empty_chop(), cur_bin: malloc_calls[i].bin, cur_addr: instrs[j].fall, var: crate::var::spec_reg(crate::var::REG_RET), freed: false },
        )
}

/// A fact justified by `rule_flow_start`.
pub open spec fn just_flow_start(malloc_calls: Seq<CallAddr>, instrs: Seq<Instr>, f: PathAlias) -> bool {
    exists|i: int, j: int|
        #![trigger malloc_calls[i], instrs[j]]
        0 <= i < malloc_calls.len() && 0 <= j < instrs.len() && (instrs[j].bin == malloc_calls[i].bin && instrs[j].addr == malloc_calls[i].addr) && f == (PathAlias { src_bin: malloc_calls[i].bin, src_addr: malloc_calls[i].addr, alias_set: 0, stack: 0, chop: empty_chop(), cur_bin: malloc_calls[i].bin, cur_addr: instrs[j].fall, var: crate::var::spec_reg(crate::var::REG_RET), freed: false })
}

/// Derives the conclusions of `rule_flow_start`.
pub fn derive_flow_start(malloc_calls: &Vec<CallAddr>, instrs: &Vec<Instr>) -> (out: Vec<PathAlias>)
    ensures
        rule_flow_start(malloc_calls@, instrs@, out@),
        forall|m: int| 0 <= m < out@.len() ==> just_flow_start(malloc_calls@, instrs@, #[trigger] out@[m]),
{
    let mut out: Vec<PathAlias> = Vec::new();
    let na = malloc_calls.len();
    for i in 0..na
        invariant
            na == malloc_calls@.len(),
            forall|i2: int, j2: int|
                #![trigger malloc_calls@[i2], instrs@[j2]]
                0 <= i2 < i && 0 <= j2 < instrs@.len() && (instrs@[j2].bin == malloc_calls@[i2].bin && instrs@[j2].addr == malloc_calls@[i2].addr) ==> out@.contains(
                    PathAlias { src_bin: malloc_calls@[i2].bin, src_addr: malloc_calls@[i2].addr, alias_set: 0, stack: 0, chop: empty_chop(), cur_bin: malloc_calls@[i2].bin, cur_addr: instrs@[j2].fall, var: crate::var::spec_reg(crate::var::REG_RET), freed: false },
                ),
            forall|m: int| 0 <= m < out@.len() ==> just_flow_start(malloc_calls@, instrs@, #[trigger] out@[m]),
    {
        let nb = instrs.len();
        for j in 0..nb
            invariant
                na == malloc_calls@.len(),
                i < na,
                nb == instrs@.len(),
                forall|i2: int, j2: int|
                    #![trigger malloc_calls@[i2], instrs@[j2]]
                    0 <= i2 < i && 0 <= j2 < instrs@.len() && (instrs@[j2].bin == malloc_calls@[i2].bin && instrs@[j2].addr == malloc_calls@[i2].addr) ==> out@.contains(
                        PathAlias { src_bin: malloc_calls@[i2].bin, src_addr: malloc_calls@[i2].addr, alias_set: 0, stack: 0, chop: empty_chop(), cur_bin: malloc_calls@[i2].bin, cur_addr: instrs@[j2].fall, var: crate::var::spec_reg(crate::var::REG_RET), freed: false },
                    ),
                forall|j2: int|
                    0 <= j2 < j && (instrs@[j2].bin == malloc_calls@[i as int].bin && instrs@[j2].addr == malloc_calls@[i as int].addr) ==> out@.contains(
                        PathAlias { src_bin: malloc_calls@[i as int].bin, src_addr: malloc_calls@[i as int].addr, alias_set: 0, stack: 0, chop: empty_chop(), cur_bin: malloc_calls@[i as int].bin, cur_addr: instrs@[j2].fall, var: crate::var::spec_reg(crate::var::REG_RET), freed: false },
                    ),
                forall|m: int| 0 <= m < out@.len() ==> just_flow_start(malloc_calls@, instrs@, #[trigger] out@[m]),
        {
            if instrs[j].bin == malloc_calls[i].bin && instrs[j].addr == malloc_calls[i].addr {
                let f = PathAlias { src_bin: malloc_calls[i].bin, src_addr: malloc_calls[i].addr, alias_set: 0, stack: 0, chop: Chop::new(), cur_bin: malloc_calls[i].bin, cur_addr: instrs[j].fall, var: crate::var::get_ret(), freed: false };
                let ghost pre = out@;
                out.push(f);
                proof {
                    assert(out@.last() == f);
                    assert(forall|q: int| 0 <= q < pre.len() ==> out@[q] == pre[q]);
                    assert(just_flow_start(malloc_calls@, instrs@, f)) by {
                        assert((instrs@[j as int].bin == malloc_calls@[i as int].bin && instrs@[j as int].addr == malloc_calls@[i as int].addr));
                        assert(f == (PathAlias { src_bin: malloc_calls@[i as int].bin, src_addr: malloc_calls@[i as int].addr, alias_set: 0, stack: 0, chop: empty_chop(), cur_bin: malloc_calls@[i as int].bin, cur_addr: instrs@[j as int].fall, var: crate::var::spec_reg(crate::var::REG_RET), freed: false }));
                    }
                    assert forall|m2: int|
                        0 <= m2 < out@.len() implies just_flow_start(malloc_calls@, instrs@, #[trigger] out@[m2]) by {
                        if m2 < pre.len() {
                            assert(out@[m2] == pre[m2]);
                        } else {
                            assert(out@[m2] == f);
                        }
                    }
                    assert forall|i2: int, j2: int|
                        #![trigger malloc_calls@[i2], instrs@[j2]]
                        0 <= i2 < i && 0 <= j2 < instrs@.len() && (instrs@[j2].bin == malloc_calls@[i2].bin && instrs@[j2].addr == malloc_calls@[i2].addr) implies out@.contains(
                        PathAlias { src_bin: malloc_calls@[i2].bin, src_addr: malloc_calls@[i2].addr, alias_set: 0, stack: 0, chop: empty_chop(), cur_bin: malloc_calls@[i2].bin, cur_addr: instrs@[j2].fall, var: crate::var::spec_reg(crate::var::REG_RET), freed: false },
                    ) by {
                        let g = PathAlias { src_bin: malloc_calls@[i2].bin, src_addr: malloc_calls@[i2].addr, alias_set: 0, stack: 0, chop: empty_chop(), cur_bin: malloc_calls@[i2].bin, cur_addr: instrs@[j2].fall, var: crate::var::spec_reg(crate::var::REG_RET), freed: false };
                        let q = choose|q: int| 0 <= q < pre.len() && pre[q] == g;
                        assert(out@[q] == g);
                    }
                    assert forall|j2: int|
                        0 <= j2 < j + 1 && (instrs@[j2].bin == malloc_calls@[i as int].bin && instrs@[j2].addr == malloc_calls@[i as int].addr) implies out@.contains(
                        PathAlias { src_bin: malloc_calls@[i as int].bin, src_addr: malloc_calls@[i as int].addr, alias_set: 0, stack: 0, chop: empty_chop(), cur_bin: malloc_calls@[i as int].bin, cur_addr: instrs@[j2].fall, var: crate::var::spec_reg(crate::var::REG_RET), freed: false },
                    ) by {
                        let g = PathAlias { src_bin: malloc_calls@[i as int].bin, src_addr: malloc_calls@[i as int].addr, alias_set: 0, stack: 0, chop: empty_chop(), cur_bin: malloc_calls@[i as int].bin, cur_addr: instrs@[j2].fall, var: crate::var::spec_reg(crate::var::REG_RET), freed: false };
                        if j2 < j {
                            let q = choose|q: int| 0 <= q < pre.len() && pre[q] == g;
                            assert(out@[q] == g);
                        } else {
                            assert(out@.last() == g);
                        }
                    }
                }
            }
        }
    }
    out
}

/// A freed state whose instruction genuinely dereferences the tracked
/// location is an accepted use-after-free flow.
pub open spec fn rule_flow_final(pas: Seq<PathAlias>, instrs: Seq<Instr>, out_rel: Seq<UafFlow>) -> bool {
    forall|i: int, j: int|
        #![trigger pas[i], instrs[j]]
        0 <= i < pas.len() && 0 <= j < instrs.len() && (pas[i].freed && instrs[j].bin == pas[i].cur_bin && instrs[j].addr == pas[i].cur_addr && crate::analyses::deref_var_sema_spec(instrs[j].sema, pas[i].var)) ==> out_rel.contains(
            UafFlow { src_bin: pas[i].src_bin, src_addr: pas[i].src_addr, alias_set: pas[i].alias_set, stack: pas[i].stack, sink_bin: pas[i].cur_bin, sink_addr: pas[i].cur_addr, var: pas[i].var },
        )
}

/// A fact justified by `rule_flow_final`.
pub open spec fn just_flow_final(pas: Seq<PathAlias>, instrs: Seq<Instr>, f: UafFlow) -> bool {
    exists|i: int, j: int|
        #![trigger pas[i], instrs[j]]
        0 <= i < pas.len() && 0 <= j < instrs.len() && (pas[i].freed && instrs[j].bin == pas[i].cur_bin && instrs[j].addr == pas[i].cur_addr && crate::analyses::deref_var_sema_spec(instrs[j].sema, pas[i].var)) && f == (UafFlow { src_bin: pas[i].src_bin, src_addr: pas[i].src_addr, alias_set: pas[i].alias_set, stack: pas[i].stack, sink_bin: pas[i].cur_bin, sink_addr: pas[i].cur_addr, var: pas[i].var })
}

/// Derives the conclusions of `rule_flow_final`.
pub fn derive_flow_final(pas: &Vec<PathAlias>, instrs: &Vec<Instr>) -> (out: Vec<UafFlow>)
    ensures
        rule_flow_final(pas@, instrs@, out@),
        forall|m: int| 0 <= m < out@.len() ==> just_flow_final(pas@, instrs@, #[trigger] out@[m]),
{
    let mut out: Vec<UafFlow> = Vec::new();
    let na = pas.len();
    for i in 0..na
        invariant
            na == pas@.len(),
            forall|i2: int, j2: int|
                #![trigger pas@[i2], instrs@[j2]]
                0 <= i2 < i && 0 <= j2 < instrs@.len() && (pas@[i2].freed && instrs@[j2].bin == pas@[i2].cur_bin && instrs@[j2].addr == pas@[i2].cur_addr && crate::analyses::deref_var_sema_spec(instrs@[j2].sema, pas@[i2].var)) ==> out@.contains(
                    UafFlow { src_bin: pas@[i2].src_bin, src_addr: pas@[i2].src_addr, alias_set: pas@[i2].alias_set, stack: pas@[i2].stack, sink_bin: pas@[i2].cur_bin, sink_addr: pas@[i2].cur_addr, var: pas@[i2].var },
                ),
            forall|m: int| 0 <= m < out@.len() ==> just_flow_final(pas@, instrs@, #[trigger] out@[m]),
    {
        let nb = instrs.len();
        for j in 0..nb
            invariant
                na == pas@.len(),
                i < na,
                nb == instrs@.len(),
                forall|i2: int, j2: int|
                    #![trigger pas@[i2], instrs@[j2]]
                    0 <= i2 < i && 0 <= j2 < instrs@.len() && (pas@[i2].freed && instrs@[j2].bin == pas@[i2].cur_bin && instrs@[j2].addr == pas@[i2].cur_addr && crate::analyses::deref_var_sema_spec(instrs@[j2].sema, pas@[i2].var)) ==> out@.contains(
                        UafFlow { src_bin: pas@[i2].src_bin, src_addr: pas@[i2].src_addr, alias_set: pas@[i2].alias_set, stack: pas@[i2].stack, sink_bin: pas@[i2].cur_bin, sink_addr: pas@[i2].cur_addr, var: pas@[i2].var },
                    ),
                forall|j2: int|
                    0 <= j2 < j && (pas@[i as int].freed && instrs@[j2].bin == pas@[i as int].cur_bin && instrs@[j2].addr == pas@[i as int].cur_addr && crate::analyses::deref_var_sema_spec(instrs@[j2].sema, pas@[i as int].var)) ==> out@.contains(
                        UafFlow { src_bin: pas@[i as int].src_bin, src_addr: pas@[i as int].src_addr, alias_set: pas@[i as int].alias_set, stack: pas@[i as int].stack, sink_bin: pas@[i as int].cur_bin, sink_addr: pas@[i as int].cur_addr, var: pas@[i as int].var },
                    ),
                forall|m: int| 0 <= m < out@.len() ==> just_flow_final(pas@, instrs@, #[trigger] out@[m]),
        {
            if pas[i].freed && instrs[j].bin == pas[i].cur_bin && instrs[j].addr == pas[i].cur_addr && crate::analyses::deref_var(&instrs[j].sema, &pas[i].var) {
                let f = UafFlow { src_bin: pas[i].src_bin, src_addr: pas[i].src_addr, alias_set: pas[i].alias_set, stack: pas[i].stack, sink_bin: pas[i].cur_bin, sink_addr: pas[i].cur_addr, var: pas[i].var };
                let ghost pre = out@;
                out.push(f);
                proof {
                    assert(out@.last() == f);
                    assert(forall|q: int| 0 <= q < pre.len() ==> out@[q] == pre[q]);
                    assert(just_flow_final(pas@, instrs@, f)) by {
                        assert((pas@[i as int].freed && instrs@[j as int].bin == pas@[i as int].cur_bin && instrs@[j as int].addr == pas@[i as int].cur_addr && crate::analyses::deref_var_sema_spec(instrs@[j as int].sema, pas@[i as int].var)));
                        assert(f == (UafFlow { src_bin: pas@[i as int].src_bin, src_addr: pas@[i as int].src_addr, alias_set: pas@[i as int].alias_set, stack: pas@[i as int].stack, sink_bin: pas@[i as int].cur_bin, sink_addr: pas@[i as int].cur_addr, var: pas@[i as int].var }));
                    }
                    assert forall|m2: int|
                        0 <= m2 < out@.len() implies just_flow_final(pas@, instrs@, #[trigger] out@[m2]) by {
                        if m2 < pre.len() {
                            assert(out@[m2] == pre[m2]);
                        } else {
                            assert(out@[m2] == f);
                        }
                    }
                    assert forall|i2: int, j2: int|
                        #![trigger pas@[i2], instrs@[j2]]
                        0 <= i2 < i && 0 <= j2 < instrs@.len() && (pas@[i2].freed && instrs@[j2].bin == pas@[i2].cur_bin && instrs@[j2].addr == pas@[i2].cur_addr && crate::analyses::deref_var_sema_spec(instrs@[j2].sema, pas@[i2].var)) implies out@.contains(
                        UafFlow { src_bin: pas@[i2].src_bin, src_addr: pas@[i2].src_addr, alias_set: pas@[i2].alias_set, stack: pas@[i2].stack, sink_bin: pas@[i2].cur_bin, sink_addr: pas@[i2].cur_addr, var: pas@[i2].var },
                    ) by {
                        let g = UafFlow { src_bin: pas@[i2].src_bin, src_addr: pas@[i2].src_addr, alias_set: pas@[i2].alias_set, stack: pas@[i2].stack, sink_bin: pas@[i2].cur_bin, sink_addr: pas@[i2].cur_addr, var: pas@[i2].var };
                        let q = choose|q: int| 0 <= q < pre.len() && pre[q] == g;
                        assert(out@[q] == g);
                    }
                    assert forall|j2: int|
                        0 <= j2 < j + 1 && (pas@[i as int].freed && instrs@[j2].bin == pas@[i as int].cur_bin && instrs@[j2].addr == pas@[i as int].cur_addr && crate::analyses::deref_var_sema_spec(instrs@[j2].sema, pas@[i as int].var)) implies out@.contains(
                        UafFlow { src_bin: pas@[i as int].src_bin, src_addr: pas@[i as int].src_addr, alias_set: pas@[i as int].alias_set, stack: pas@[i as int].stack, sink_bin: pas@[i as int].cur_bin, sink_addr: pas@[i as int].cur_addr, var: pas@[i as int].var },
                    ) by {
                        let g = UafFlow { src_bin: pas@[i as int].src_bin, src_addr: pas@[i as int].src_addr, alias_set: pas@[i as int].alias_set, stack: pas@[i as int].stack, sink_bin: pas@[i as int].cur_bin, sink_addr: pas@[i as int].cur_addr, var: pas@[i as int].var };
                        if j2 < j {
                            let q = choose|q: int| 0 <= q < pre.len() && pre[q] == g;
                            assert(out@[q] == g);
                        } else {
                            assert(out@.last() == g);
                        }
                    }
                }
            }
        }
    }
    out
}

/// A freed state whose tracked location is passed to an external routine
/// that reads its argument is an accepted use-after-free flow.
pub open spec fn rule_flow_final_use(pas: Seq<PathAlias>, func_uses: Seq<FuncUse>, out_rel: Seq<UafFlow>) -> bool {
    forall|i: int, j: int|
        #![trigger pas[i], func_uses[j]]
        0 <= i < pas.len() && 0 <= j < func_uses.len() && (pas[i].freed && func_uses[j].bin == pas[i].cur_bin && func_uses[j].addr == pas[i].cur_addr && func_uses[j].var == pas[i].var) ==> out_rel.contains(
            UafFlow { src_bin: pas[i].src_bin, src_addr: pas[i].src_addr, alias_set: pas[i].alias_set, stack: pas[i].stack, sink_bin: pas[i].cur_bin, sink_addr: pas[i].cur_addr, var: pas[i].var },
        )
}

/// A fact justified by `rule_flow_final_use`.
pub open spec fn just_flow_final_use(pas: Seq<PathAlias>, func_uses: Seq<FuncUse>, f: UafFlow) -> bool {
    exists|i: int, j: int|
        #![trigger pas[i], func_uses[j]]
        0 <= i < pas.len() && 0 <= j < func_uses.len() && (pas[i].freed && func_uses[j].bin == pas[i].cur_bin && func_uses[j].addr == pas[i].cur_addr && func_uses[j].var == pas[i].var) && f == (UafFlow { src_bin: pas[i].src_bin, src_addr: pas[i].src_addr, alias_set: pas[i].alias_set, stack: pas[i].stack, sink_bin: pas[i].cur_bin, sink_addr: pas[i].cur_addr, var: pas[i].var })
}

/// Derives the conclusions of `rule_flow_final_use`.
pub fn derive_flow_final_use(pas: &Vec<PathAlias>, func_uses: &Vec<FuncUse>) -> (out: Vec<UafFlow>)
    ensures
        rule_flow_final_use(pas@, func_uses@, out@),
        forall|m: int| 0 <= m < out@.len() ==> just_flow_final_use(pas@, func_uses@, #[trigger] out@[m]),
{
    let mut out: Vec<UafFlow> = Vec::new();
    let na = pas.len();
    for i in 0..na
        invariant
            na == pas@.len(),
            forall|i2: int, j2: int|
                #![trigger pas@[i2], func_uses@[j2]]
                0 <= i2 < i && 0 <= j2 < func_uses@.len() && (pas@[i2].freed && func_uses@[j2].bin == pas@[i2].cur_bin && func_uses@[j2].addr == pas@[i2].cur_addr && func_uses@[j2].var == pas@[i2].var) ==> out@.contains(
                    UafFlow { src_bin: pas@[i2].src_bin, src_addr: pas@[i2].src_addr, alias_set: pas@[i2].alias_set, stack: pas@[i2].stack, sink_bin: pas@[i2].cur_bin, sink_addr: pas@[i2].cur_addr, var: pas@[i2].var },
                ),
            forall|m: int| 0 <= m < out@.len() ==> just_flow_final_use(pas@, func_uses@, #[trigger] out@[m]),
    {
        let nb = func_uses.len();
        for j in 0..nb
            invariant
                na == pas@.len(),
                i < na,
                nb == func_uses@.len(),
                forall|i2: int, j2: int|
                    #![trigger pas@[i2], func_uses@[j2]]
                    0 <= i2 < i && 0 <= j2 < func_uses@.len() && (pas@[i2].freed && func_uses@[j2].bin == pas@[i2].cur_bin && func_uses@[j2].addr == pas@[i2].cur_addr && func_uses@[j2].var == pas@[i2].var) ==> out@.contains(
                        UafFlow { src_bin: pas@[i2].src_bin, src_addr: pas@[i2].src_addr, alias_set: pas@[i2].alias_set, stack: pas@[i2].stack, sink_bin: pas@[i2].cur_bin, sink_addr: pas@[i2].cur_addr, var: pas@[i2].var },
                    ),
                forall|j2: int|
                    0 <= j2 < j && (pas@[i as int].freed && func_uses@[j2].bin == pas@[i as int].cur_bin && func_uses@[j2].addr == pas@[i as int].cur_addr && func_uses@[j2].var == pas@[i as int].var) ==> out@.contains(
                        UafFlow { src_bin: pas@[i as int].src_bin, src_addr: pas@[i as int].src_addr, alias_set: pas@[i as int].alias_set, stack: pas@[i as int].stack, sink_bin: pas@[i as int].cur_bin, sink_addr: pas@[i as int].cur_addr, var: pas@[i as int].var },
                    ),
                forall|m: int| 0 <= m < out@.len() ==> just_flow_final_use(pas@, func_uses@, #[trigger] out@[m]),
        {
            if pas[i].freed && func_uses[j].bin == pas[i].cur_bin && func_uses[j].addr == pas[i].cur_addr && func_uses[j].var == pas[i].var {
                let f = UafFlow { src_bin: pas[i].src_bin, src_addr: pas[i].src_addr, alias_set: pas[i].alias_set, stack: pas[i].stack, sink_bin: pas[i].cur_bin, sink_addr: pas[i].cur_addr, var: pas[i].var };
                let ghost pre = out@;
                out.push(f);
                proof {
                    assert(out@.last() == f);
                    assert(forall|q: int| 0 <= q < pre.len() ==> out@[q] == pre[q]);
                    assert(just_flow_final_use(pas@, func_uses@, f)) by {
                        assert((pas@[i as int].freed && func_uses@[j as int].bin == pas@[i as int].cur_bin && func_uses@[j as int].addr == pas@[i as int].cur_addr && func_uses@[j as int].var == pas@[i as int].var));
                        assert(f == (UafFlow { src_bin: pas@[i as int].src_bin, src_addr: pas@[i as int].src_addr, alias_set: pas@[i as int].alias_set, stack: pas@[i as int].stack, sink_bin: pas@[i as int].cur_bin, sink_addr: pas@[i as int].cur_addr, var: pas@[i as int].var }));
                    }
                    assert forall|m2: int|
                        0 <= m2 < out@.len() implies just_flow_final_use(pas@, func_uses@, #[trigger] out@[m2]) by {
                        if m2 < pre.len() {
                            assert(out@[m2] == pre[m2]);
                        } else {
                            assert(out@[m2] == f);
                        }
                    }
                    assert forall|i2: int, j2: int|
                        #![trigger pas@[i2], func_uses@[j2]]
                        0 <= i2 < i && 0 <= j2 < func_uses@.len() && (pas@[i2].freed && func_uses@[j2].bin == pas@[i2].cur_bin && func_uses@[j2].addr == pas@[i2].cur_addr && func_uses@[j2].var == pas@[i2].var) implies out@.contains(
                        UafFlow { src_bin: pas@[i2].src_bin, src_addr: pas@[i2].src_addr, alias_set: pas@[i2].alias_set, stack: pas@[i2].stack, sink_bin: pas@[i2].cur_bin, sink_addr: pas@[i2].cur_addr, var: pas@[i2].var },
                    ) by {
                        let g = UafFlow { src_bin: pas@[i2].src_bin, src_addr: pas@[i2].src_addr, alias_set: pas@[i2].alias_set, stack: pas@[i2].stack, sink_bin: pas@[i2].cur_bin, sink_addr: pas@[i2].cur_addr, var: pas@[i2].var };
                        let q = choose|q: int| 0 <= q < pre.len() && pre[q] == g;
                        assert(out@[q] == g);
                    }
                    assert forall|j2: int|
                        0 <= j2 < j + 1 && (pas@[i as int].freed && func_uses@[j2].bin == pas@[i as int].cur_bin && func_uses@[j2].addr == pas@[i as int].cur_addr && func_uses@[j2].var == pas@[i as int].var) implies out@.contains(
                        UafFlow { src_bin: pas@[i as int].src_bin, src_addr: pas@[i as int].src_addr, alias_set: pas@[i as int].alias_set, stack: pas@[i as int].stack, sink_bin: pas@[i as int].cur_bin, sink_addr: pas@[i as int].cur_addr, var: pas@[i as int].var },
                    ) by {
                        let g = UafFlow { src_bin: pas@[i as int].src_bin, src_addr: pas@[i as int].src_addr, alias_set: pas@[i as int].alias_set, stack: pas@[i as int].stack, sink_bin: pas@[i as int].cur_bin, sink_addr: pas@[i as int].cur_addr, var: pas@[i as int].var };
                        if j2 < j {
                            let q = choose|q: int| 0 <= q < pre.len() && pre[q] == g;
                            assert(out@[q] == g);
                        } else {
                            assert(out@.last() == g);
                        }
                    }
                }
            }
        }
    }
    out
}

/// A freed trace state at a genuinely dereferencing instruction is a
/// reportable finding carrying its witness length.
pub open spec fn rule_uaf_finalize(traces: Seq<PathAliasTrace>, instrs: Seq<Instr>, out_rel: Seq<Uaf>) -> bool {
    forall|i: int, j: int|
        #![trigger traces[i], instrs[j]]
        0 <= i < traces.len() && 0 <= j < instrs.len() && (traces[i].freed && instrs[j].bin == traces[i].cur_bin && instrs[j].addr == traces[i].cur_addr && crate::analyses::deref_var_sema_spec(instrs[j].sema, traces[i].var)) ==> out_rel.contains(
            Uaf { src_bin: traces[i].src_bin, src_addr: traces[i].src_addr, alias_set: traces[i].alias_set, sink_bin: traces[i].cur_bin, sink_addr: traces[i].cur_addr, var: traces[i].var, stack: traces[i].stack, len: traces[i].len },
        )
}

/// A fact justified by `rule_uaf_finalize`.
pub open spec fn just_uaf_finalize(traces: Seq<PathAliasTrace>, instrs: Seq<Instr>, f: Uaf) -> bool {
    exists|i: int, j: int|
        #![trigger traces[i], instrs[j]]
        0 <= i < traces.len() && 0 <= j < instrs.len() && (traces[i].freed && instrs[j].bin == traces[i].cur_bin && instrs[j].addr == traces[i].cur_addr && crate::analyses::deref_var_sema_spec(instrs[j].sema, traces[i].var)) && f == (Uaf { src_bin: traces[i].src_bin, src_addr: traces[i].src_addr, alias_set: traces[i].alias_set, sink_bin: traces[i].cur_bin, sink_addr: traces[i].cur_addr, var: traces[i].var, stack: traces[i].stack, len: traces[i].len })
}

/// Derives the conclusions of `rule_uaf_finalize`.
pub fn derive_uaf_finalize(traces: &Vec<PathAliasTrace>, instrs: &Vec<Instr>) -> (out: Vec<Uaf>)
    ensures
        rule_uaf_finalize(traces@, instrs@, out@),
        forall|m: int| 0 <= m < out@.len() ==> just_uaf_finalize(traces@, instrs@, #[trigger] out@[m]),
{
    let mut out: Vec<Uaf> = Vec::new();
    let na = traces.len();
    for i in 0..na
        invariant
            na == traces@.len(),
            forall|i2: int, j2: int|
                #![trigger traces@[i2], instrs@[j2]]
                0 <= i2 < i && 0 <= j2 < instrs@.len() && (traces@[i2].freed && instrs@[j2].bin == traces@[i2].cur_bin && instrs@[j2].addr == traces@[i2].cur_addr && crate::analyses::deref_var_sema_spec(instrs@[j2].sema, traces@[i2].var)) ==> out@.contains(
                    Uaf { src_bin: traces@[i2].src_bin, src_addr: traces@[i2].src_addr, alias_set: traces@[i2].alias_set, sink_bin: traces@[i2].cur_bin, sink_addr: traces@[i2].cur_addr, var: traces@[i2].var, stack: traces@[i2].stack, len: traces@[i2].len },
                ),
            forall|m: int| 0 <= m < out@.len() ==> just_uaf_finalize(traces@, instrs@, #[trigger] out@[m]),
    {
        let nb = instrs.len();
        for j in 0..nb
            invariant
                na == traces@.len(),
                i < na,
                nb == instrs@.len(),
                forall|i2: int, j2: int|
                    #![trigger traces@[i2], instrs@[j2]]
                    0 <= i2 < i && 0 <= j2 < instrs@.len() && (traces@[i2].freed && instrs@[j2].bin == traces@[i2].cur_bin && instrs@[j2].addr == traces@[i2].cur_addr && crate::analyses::deref_var_sema_spec(instrs@[j2].sema, traces@[i2].var)) ==> out@.contains(
                        Uaf { src_bin: traces@[i2].src_bin, src_addr: traces@[i2].src_addr, alias_set: traces@[i2].alias_set, sink_bin: traces@[i2].cur_bin, sink_addr: traces@[i2].cur_addr, var: traces@[i2].var, stack: traces@[i2].stack, len: traces@[i2].len },
                    ),
                forall|j2: int|
                    0 <= j2 < j && (traces@[i as int].freed && instrs@[j2].bin == traces@[i as int].cur_bin && instrs@[j2].addr == traces@[i as int].cur_addr && crate::analyses::deref_var_sema_spec(instrs@[j2].sema, traces@[i as int].var)) ==> out@.contains(
                        Uaf { src_bin: traces@[i as int].src_bin, src_addr: traces@[i as int].src_addr, alias_set: traces@[i as int].alias_set, sink_bin: traces@[i as int].cur_bin, sink_addr: traces@[i as int].cur_addr, var: traces@[i as int].var, stack: traces@[i as int].stack, len: traces@[i as int].len },
                    ),
                forall|m: int| 0 <= m < out@.len() ==> just_uaf_finalize(traces@, instrs@, #[trigger] out@[m]),
        {
            if traces[i].freed && instrs[j].bin == traces[i].cur_bin && instrs[j].addr == traces[i].cur_addr && crate::analyses::deref_var(&instrs[j].sema, &traces[i].var) {
                let f = Uaf { src_bin: traces[i].src_bin, src_addr: traces[i].src_addr, alias_set: traces[i].alias_set, sink_bin: traces[i].cur_bin, sink_addr: traces[i].cur_addr, var: traces[i].var, stack: traces[i].stack, len: traces[i].len };
                let ghost pre = out@;
                out.push(f);
                proof {
                    assert(out@.last() == f);
                    assert(forall|q: int| 0 <= q < pre.len() ==> out@[q] == pre[q]);
                    assert(just_uaf_finalize(traces@, instrs@, f)) by {
                        assert((traces@[i as int].freed && instrs@[j as int].bin == traces@[i as int].cur_bin && instrs@[j as int].addr == traces@[i as int].cur_addr && crate::analyses::deref_var_sema_spec(instrs@[j as int].sema, traces@[i as int].var)));
                        assert(f == (Uaf { src_bin: traces@[i as int].src_bin, src_addr: traces@[i as int].src_addr, alias_set: traces@[i as int].alias_set, sink_bin: traces@[i as int].cur_bin, sink_addr: traces@[i as int].cur_addr, var: traces@[i as int].var, stack: traces@[i as int].stack, len: traces@[i as int].len }));
                    }
                    assert forall|m2: int|
                        0 <= m2 < out@.len() implies just_uaf_finalize(traces@, instrs@, #[trigger] out@[m2]) by {
                        if m2 < pre.len() {
                            assert(out@[m2] == pre[m2]);
                        } else {
                            assert(out@[m2] == f);
                        }
                    }
                    assert forall|i2: int, j2: int|
                        #![trigger traces@[i2], instrs@[j2]]
                        0 <= i2 < i && 0 <= j2 < instrs@.len() && (traces@[i2].freed && instrs@[j2].bin == traces@[i2].cur_bin && instrs@[j2].addr == traces@[i2].cur_addr && crate::analyses::deref_var_sema_spec(instrs@[j2].sema, traces@[i2].var)) implies out@.contains(
                        Uaf { src_bin: traces@[i2].src_bin, src_addr: traces@[i2].src_addr, alias_set: traces@[i2].alias_set, sink_bin: traces@[i2].cur_bin, sink_addr: traces@[i2].cur_addr, var: traces@[i2].var, stack: traces@[i2].stack, len: traces@[i2].len },
                    ) by {
                        let g = Uaf { src_bin: traces@[i2].src_bin, src_addr: traces@[i2].src_addr, alias_set: traces@[i2].alias_set, sink_bin: traces@[i2].cur_bin, sink_addr: traces@[i2].cur_addr, var: traces@[i2].var, stack: traces@[i2].stack, len: traces@[i2].len };
                        let q = choose|q: int| 0 <= q < pre.len() && pre[q] == g;
                        assert(out@[q] == g);
                    }
                    assert forall|j2: int|
                        0 <= j2 < j + 1 && (traces@[i as int].freed && instrs@[j2].bin == traces@[i as int].cur_bin && instrs@[j2].addr == traces@[i as int].cur_addr && crate::analyses::deref_var_sema_spec(instrs@[j2].sema, traces@[i as int].var)) implies out@.contains(
                        Uaf { src_bin: traces@[i as int].src_bin, src_addr: traces@[i as int].src_addr, alias_set: traces@[i as int].alias_set, sink_bin: traces@[i as int].cur_bin, sink_addr: traces@[i as int].cur_addr, var: traces@[i as int].var, stack: traces@[i as int].stack, len: traces@[i as int].len },
                    ) by {
                        let g = Uaf { src_bin: traces@[i as int].src_bin, src_addr: traces@[i as int].src_addr, alias_set: traces@[i as int].alias_set, sink_bin: traces@[i as int].cur_bin, sink_addr: traces@[i as int].cur_addr, var: traces@[i as int].var, stack: traces@[i as int].stack, len: traces@[i as int].len };
                        if j2 < j {
                            let q = choose|q: int| 0 <= q < pre.len() && pre[q] == g;
                            assert(out@[q] == g);
                        } else {
                            assert(out@.last() == g);
                        }
                    }
                }
            }
        }
    }
    out
}

/// A freed trace state whose tracked location reaches an external routine
/// that reads it is a reportable finding.
pub open spec fn rule_uaf_finalize_use(traces: Seq<PathAliasTrace>, func_uses: Seq<FuncUse>, out_rel: Seq<Uaf>) -> bool {
    forall|i: int, j: int|
        #![trigger traces[i], func_uses[j]]
        0 <= i < traces.len() && 0 <= j < func_uses.len() && (traces[i].freed && func_uses[j].bin == traces[i].cur_bin && func_uses[j].addr == traces[i].cur_addr && func_uses[j].var == traces[i].var) ==> out_rel.contains(
            Uaf { src_bin: traces[i].src_bin, src_addr: traces[i].src_addr, alias_set: traces[i].alias_set, sink_bin: traces[i].cur_bin, sink_addr: traces[i].cur_addr, var: traces[i].var, stack: traces[i].stack, len: traces[i].len },
        )
}

/// A fact justified by `rule_uaf_finalize_use`.
pub open spec fn just_uaf_finalize_use(traces: Seq<PathAliasTrace>, func_uses: Seq<FuncUse>, f: Uaf) -> bool {
    exists|i: int, j: int|
        #![trigger traces[i], func_uses[j]]
        0 <= i < traces.len() && 0 <= j < func_uses.len() && (traces[i].freed && func_uses[j].bin == traces[i].cur_bin && func_uses[j].addr == traces[i].cur_addr && func_uses[j].var == traces[i].var) && f == (Uaf { src_bin: traces[i].src_bin, src_addr: traces[i].src_addr, alias_set: traces[i].alias_set, sink_bin: traces[i].cur_bin, sink_addr: traces[i].cur_addr, var: traces[i].var, stack: traces[i].stack, len: traces[i].len })
}

/// Derives the conclusions of `rule_uaf_finalize_use`.
pub fn derive_uaf_finalize_use(traces: &Vec<PathAliasTrace>, func_uses: &Vec<FuncUse>) -> (out: Vec<Uaf>)
    ensures
        rule_uaf_finalize_use(traces@, func_uses@, out@),
        forall|m: int| 0 <= m < out@.len() ==> just_uaf_finalize_use(traces@, func_uses@, #[trigger] out@[m]),
{
    let mut out: Vec<Uaf> = Vec::new();
    let na = traces.len();
    for i in 0..na
        invariant
            na == traces@.len(),
            forall|i2: int, j2: int|
                #![trigger traces@[i2], func_uses@[j2]]
                0 <= i2 < i && 0 <= j2 < func_uses@.len() && (traces@[i2].freed && func_uses@[j2].bin == traces@[i2].cur_bin && func_uses@[j2].addr == traces@[i2].cur_addr && func_uses@[j2].var == traces@[i2].var) ==> out@.contains(
                    Uaf { src_bin: traces@[i2].src_bin, src_addr: traces@[i2].src_addr, alias_set: traces@[i2].alias_set, sink_bin: traces@[i2].cur_bin, sink_addr: traces@[i2].cur_addr, var: traces@[i2].var, stack: traces@[i2].stack, len: traces@[i2].len },
                ),
            forall|m: int| 0 <= m < out@.len() ==> just_uaf_finalize_use(traces@, func_uses@, #[trigger] out@[m]),
    {
        let nb = func_uses.len();
        for j in 0..nb
            invariant
                na == traces@.len(),
                i < na,
                nb == func_uses@.len(),
                forall|i2: int, j2: int|
                    #![trigger traces@[i2], func_uses@[j2]]
                    0 <= i2 < i && 0 <= j2 < func_uses@.len() && (traces@[i2].freed && func_uses@[j2].bin == traces@[i2].cur_bin && func_uses@[j2].addr == traces@[i2].cur_addr && func_uses@[j2].var == traces@[i2].var) ==> out@.contains(
                        Uaf { src_bin: traces@[i2].src_bin, src_addr: traces@[i2].src_addr, alias_set: traces@[i2].alias_set, sink_bin: traces@[i2].cur_bin, sink_addr: traces@[i2].cur_addr, var: traces@[i2].var, stack: traces@[i2].stack, len: traces@[i2].len },
                    ),
                forall|j2: int|
                    0 <= j2 < j && (traces@[i as int].freed && func_uses@[j2].bin == traces@[i as int].cur_bin && func_uses@[j2].addr == traces@[i as int].cur_addr && func_uses@[j2].var == traces@[i as int].var) ==> out@.contains(
                        Uaf { src_bin: traces@[i as int].src_bin, src_addr: traces@[i as int].src_addr, alias_set: traces@[i as int].alias_set, sink_bin: traces@[i as int].cur_bin, sink_addr: traces@[i as int].cur_addr, var: traces@[i as int].var, stack: traces@[i as int].stack, len: traces@[i as int].len },
                    ),
                forall|m: int| 0 <= m < out@.len() ==> just_uaf_finalize_use(traces@, func_uses@, #[trigger] out@[m]),
        {
            if traces[i].freed && func_uses[j].bin == traces[i].cur_bin && func_uses[j].addr == traces[i].cur_addr && func_uses[j].var == traces[i].var {
                let f = Uaf { src_bin: traces[i].src_bin, src_addr: traces[i].src_addr, alias_set: traces[i].alias_set, sink_bin: traces[i].cur_bin, sink_addr: traces[i].cur_addr, var: traces[i].var, stack: traces[i].stack, len: traces[i].len };
                let ghost pre = out@;
                out.push(f);
                proof {
                    assert(out@.last() == f);
                    assert(forall|q: int| 0 <= q < pre.len() ==> out@[q] == pre[q]);
                    assert(just_uaf_finalize_use(traces@, func_uses@, f)) by {
                        assert((traces@[i as int].freed && func_uses@[j as int].bin == traces@[i as int].cur_bin && func_uses@[j as int].addr == traces@[i as int].cur_addr && func_uses@[j as int].var == traces@[i as int].var));
                        assert(f == (Uaf { src_bin: traces@[i as int].src_bin, src_addr: traces@[i as int].src_addr, alias_set: traces@[i as int].alias_set, sink_bin: traces@[i as int].cur_bin, sink_addr: traces@[i as int].cur_addr, var: traces@[i as int].var, stack: traces@[i as int].stack, len: traces@[i as int].len }));
                    }
                    assert forall|m2: int|
                        0 <= m2 < out@.len() implies just_uaf_finalize_use(traces@, func_uses@, #[trigger] out@[m2]) by {
                        if m2 < pre.len() {
                            assert(out@[m2] == pre[m2]);
                        } else {
                            assert(out@[m2] == f);
                        }
                    }
                    assert forall|i2: int, j2: int|
                        #![trigger traces@[i2], func_uses@[j2]]
                        0 <= i2 < i && 0 <= j2 < func_uses@.len() && (traces@[i2].freed && func_uses@[j2].bin == traces@[i2].cur_bin && func_uses@[j2].addr == traces@[i2].cur_addr && func_uses@[j2].var == traces@[i2].var) implies out@.contains(
                        Uaf { src_bin: traces@[i2].src_bin, src_addr: traces@[i2].src_addr, alias_set: traces@[i2].alias_set, sink_bin: traces@[i2].cur_bin, sink_addr: traces@[i2].cur_addr, var: traces@[i2].var, stack: traces@[i2].stack, len: traces@[i2].len },
                    ) by {
                        let g = Uaf { src_bin: traces@[i2].src_bin, src_addr: traces@[i2].src_addr, alias_set: traces@[i2].alias_set, sink_bin: traces@[i2].cur_bin, sink_addr: traces@[i2].cur_addr, var: traces@[i2].var, stack: traces@[i2].stack, len: traces@[i2].len };
                        let q = choose|q: int| 0 <= q < pre.len() && pre[q] == g;
                        assert(out@[q] == g);
                    }
                    assert forall|j2: int|
                        0 <= j2 < j + 1 && (traces@[i as int].freed && func_uses@[j2].bin == traces@[i as int].cur_bin && func_uses@[j2].addr == traces@[i as int].cur_addr && func_uses@[j2].var == traces@[i as int].var) implies out@.contains(
                        Uaf { src_bin: traces@[i as int].src_bin, src_addr: traces@[i as int].src_addr, alias_set: traces@[i as int].alias_set, sink_bin: traces@[i as int].cur_bin, sink_addr: traces@[i as int].cur_addr, var: traces@[i as int].var, stack: traces@[i as int].stack, len: traces@[i as int].len },
                    ) by {
                        let g = Uaf { src_bin: traces@[i as int].src_bin, src_addr: traces@[i as int].src_addr, alias_set: traces@[i as int].alias_set, sink_bin: traces@[i as int].cur_bin, sink_addr: traces@[i as int].cur_addr, var: traces@[i as int].var, stack: traces@[i as int].stack, len: traces@[i as int].len };
                        if j2 < j {
                            let q = choose|q: int| 0 <= q < pre.len() && pre[q] == g;
                            assert(out@[q] == g);
                        } else {
                            assert(out@.last() == g);
                        }
                    }
                }
            }
        }
    }
    out
}

// ---------------------------------------------------------------------------
// Rules: intraprocedural taint propagation
// ---------------------------------------------------------------------------

/// The instruction's taint transfer on a state's tracked location.
pub open spec fn xfer_of(ins: Instr, var: HVar) -> Seq<HVar> {
    crate::analyses::xfer_taint_spec(ins.sema, var)
}

/// The state continued at a successor with a transferred location.
pub open spec fn prop_concl(p: PathAlias, sink: u64, var2: HVar) -> PathAlias {
    PathAlias {
        src_bin: p.src_bin,
        src_addr: p.src_addr,
        alias_set: p.alias_set,
        stack: p.stack,
        chop: p.chop,
        cur_bin: p.cur_bin,
        cur_addr: sink,
        var: var2,
        freed: p.freed,
    }
}

/// A state at an instruction with a non-call successor flows there,
/// carrying its context and chop, with the instruction's taint transfer
/// applied to the tracked location.
pub open spec fn rule_flow_prop(
    pas: Seq<PathAlias>,
    succs: Seq<SuccFact>,
    instrs: Seq<Instr>,
    out_rel: Seq<PathAlias>,
) -> bool {
    forall|i: int, j: int, k: int, v: int|
        #![trigger pas[i], succs[j], xfer_of(instrs[k], pas[i].var)[v]]
        0 <= i < pas.len() && 0 <= j < succs.len() && 0 <= k < instrs.len() && succs[j].bin
            == pas[i].cur_bin && succs[j].src == pas[i].cur_addr && !succs[j].is_call
            && instrs[k].bin == pas[i].cur_bin && instrs[k].addr == pas[i].cur_addr && 0 <= v
            < xfer_of(instrs[k], pas[i].var).len() ==> out_rel.contains(
            prop_concl(pas[i], succs[j].sink, xfer_of(instrs[k], pas[i].var)[v]),
        )
}

/// A fact justified by `rule_flow_prop`.
pub open spec fn just_flow_prop(
    pas: Seq<PathAlias>,
    succs: Seq<SuccFact>,
    instrs: Seq<Instr>,
    f: PathAlias,
) -> bool {
    exists|i: int, j: int, k: int, v: int|
        #![trigger pas[i], succs[j], xfer_of(instrs[k], pas[i].var)[v]]
        0 <= i < pas.len() && 0 <= j < succs.len() && 0 <= k < instrs.len() && succs[j].bin
            == pas[i].cur_bin && succs[j].src == pas[i].cur_addr && !succs[j].is_call
            && instrs[k].bin == pas[i].cur_bin && instrs[k].addr == pas[i].cur_addr && 0 <= v
            < xfer_of(instrs[k], pas[i].var).len() && f == prop_concl(
            pas[i],
            succs[j].sink,
            xfer_of(instrs[k], pas[i].var)[v],
        )
}

/// Derives the conclusions of `rule_flow_prop`.
pub fn derive_flow_prop(pas: &Vec<PathAlias>, succs: &Vec<SuccFact>, instrs: &Vec<Instr>) -> (out:
    Vec<PathAlias>)
    requires
        crate::schema::instrs_unique(instrs@),
    ensures
        rule_flow_prop(pas@, succs@, instrs@, out@),
        forall|m: int|
            0 <= m < out@.len() ==> just_flow_prop(pas@, succs@, instrs@, #[trigger] out@[m]),
{
    let mut out: Vec<PathAlias> = Vec::new();
    let na = pas.len();
    for i in 0..na
        invariant
            na == pas@.len(),
            crate::schema::instrs_unique(instrs@),
            forall|i2: int, j2: int, k2: int, v2: int|
                #![trigger pas@[i2], succs@[j2], xfer_of(instrs@[k2], pas@[i2].var)[v2]]
                0 <= i2 < i && 0 <= j2 < succs@.len() && 0 <= k2 < instrs@.len() && succs@[j2].bin
                    == pas@[i2].cur_bin && succs@[j2].src == pas@[i2].cur_addr
                    && !succs@[j2].is_call && instrs@[k2].bin == pas@[i2].cur_bin
                    && instrs@[k2].addr == pas@[i2].cur_addr && 0 <= v2 < xfer_of(
                    instrs@[k2],
                    pas@[i2].var,
                ).len() ==> out@.contains(
                    prop_concl(pas@[i2], succs@[j2].sink, xfer_of(instrs@[k2], pas@[i2].var)[v2]),
                ),
            forall|m: int|
                0 <= m < out@.len() ==> just_flow_prop(pas@, succs@, instrs@, #[trigger] out@[m]),
    {
        let p = pas[i];
        match find_instr(instrs, p.cur_bin, p.cur_addr) {
            None => {
                proof {
                    assert forall|j2: int, k2: int, v2: int|
                        #![trigger succs@[j2], xfer_of(instrs@[k2], pas@[i as int].var)[v2]]
                        !(0 <= j2 < succs@.len() && 0 <= k2 < instrs@.len()
                            && succs@[j2].bin == pas@[i as int].cur_bin && succs@[j2].src
                            == pas@[i as int].cur_addr && !succs@[j2].is_call && instrs@[k2].bin
                            == pas@[i as int].cur_bin && instrs@[k2].addr
                            == pas@[i as int].cur_addr && 0 <= v2 < xfer_of(
                            instrs@[k2],
                            pas@[i as int].var,
                        ).len()) by {
                        if 0 <= k2 < instrs@.len() {
                            assert(!((#[trigger] instrs@[k2]).bin == p.cur_bin && instrs@[k2].addr
                                == p.cur_addr));
                        }
                    }
                }
            },
            Some(k0) => {
                let vars = crate::analyses::xfer_taint(&instrs[k0].sema, &p.var);
                proof {
                    assert(vars@ == xfer_of(instrs@[k0 as int], pas@[i as int].var));
                }
                let nb = succs.len();
                for j in 0..nb
                    invariant
                        na == pas@.len(),
                        i < na,
                        p == pas@[i as int],
                        nb == succs@.len(),
                        crate::schema::instrs_unique(instrs@),
                        0 <= k0 < instrs@.len(),
                        instrs@[k0 as int].bin == p.cur_bin,
                        instrs@[k0 as int].addr == p.cur_addr,
                        vars@ == xfer_of(instrs@[k0 as int], pas@[i as int].var),
                        forall|i2: int, j2: int, k2: int, v2: int|
                            #![trigger pas@[i2], succs@[j2], xfer_of(instrs@[k2], pas@[i2].var)[v2]]
                            0 <= i2 < i && 0 <= j2 < succs@.len() && 0 <= k2 < instrs@.len()
                                && succs@[j2].bin == pas@[i2].cur_bin && succs@[j2].src
                                == pas@[i2].cur_addr && !succs@[j2].is_call && instrs@[k2].bin
                                == pas@[i2].cur_bin && instrs@[k2].addr == pas@[i2].cur_addr && 0
                                <= v2 < xfer_of(instrs@[k2], pas@[i2].var).len() ==> out@.contains(
                                prop_concl(
                                    pas@[i2],
                                    succs@[j2].sink,
                                    xfer_of(instrs@[k2], pas@[i2].var)[v2],
                                ),
                            ),
                        forall|j2: int, v2: int|
                            #![trigger succs@[j2], vars@[v2]]
                            0 <= j2 < j && succs@[j2].bin == p.cur_bin && succs@[j2].src
                                == p.cur_addr && !succs@[j2].is_call && 0 <= v2 < vars@.len()
                                ==> out@.contains(prop_concl(pas@[i as int], succs@[j2].sink, vars@[v2])),
                        forall|m: int|
                            0 <= m < out@.len() ==> just_flow_prop(
                                pas@,
                                succs@,
                                instrs@,
                                #[trigger] out@[m],
                            ),
                {
                    if succs[j].bin == p.cur_bin && succs[j].src == p.cur_addr && !succs[j].is_call {
                        let nv = vars.len();
                        for v in 0..nv
                            invariant
                                na == pas@.len(),
                                i < na,
                                j < nb,
                                p == pas@[i as int],
                                nb == succs@.len(),
                                nv == vars@.len(),
                                crate::schema::instrs_unique(instrs@),
                                0 <= k0 < instrs@.len(),
                                instrs@[k0 as int].bin == p.cur_bin,
                                instrs@[k0 as int].addr == p.cur_addr,
                                succs@[j as int].bin == p.cur_bin,
                                succs@[j as int].src == p.cur_addr,
                                !succs@[j as int].is_call,
                                vars@ == xfer_of(instrs@[k0 as int], pas@[i as int].var),
                                forall|i2: int, j2: int, k2: int, v2: int|
                                    #![trigger pas@[i2], succs@[j2], xfer_of(instrs@[k2], pas@[i2].var)[v2]]
                                    0 <= i2 < i && 0 <= j2 < succs@.len() && 0 <= k2 < instrs@.len()
                                        && succs@[j2].bin == pas@[i2].cur_bin && succs@[j2].src
                                        == pas@[i2].cur_addr && !succs@[j2].is_call
                                        && instrs@[k2].bin == pas@[i2].cur_bin && instrs@[k2].addr
                                        == pas@[i2].cur_addr && 0 <= v2 < xfer_of(
                                        instrs@[k2],
                                        pas@[i2].var,
                                    ).len() ==> out@.contains(
                                        prop_concl(
                                            pas@[i2],
                                            succs@[j2].sink,
                                            xfer_of(instrs@[k2], pas@[i2].var)[v2],
                                        ),
                                    ),
                                forall|j2: int, v2: int|
                                    #![trigger succs@[j2], vars@[v2]]
                                    0 <= j2 < j && succs@[j2].bin == p.cur_bin && succs@[j2].src
                                        == p.cur_addr && !succs@[j2].is_call && 0 <= v2
                                        < vars@.len() ==> out@.contains(
                                        prop_concl(pas@[i as int], succs@[j2].sink, vars@[v2]),
                                    ),
                                forall|v2: int|
                                    0 <= v2 < v ==> out@.contains(
                                        prop_concl(
                                            pas@[i as int],
                                            succs@[j as int].sink,
                                            #[trigger] vars@[v2],
                                        ),
                                    ),
                                forall|m: int|
                                    0 <= m < out@.len() ==> just_flow_prop(
                                        pas@,
                                        succs@,
                                        instrs@,
                                        #[trigger] out@[m],
                                    ),
                        {
                            let f = PathAlias {
                                src_bin: p.src_bin,
                                src_addr: p.src_addr,
                                alias_set: p.alias_set,
                                stack: p.stack,
                                chop: p.chop,
                                cur_bin: p.cur_bin,
                                cur_addr: succs[j].sink,
                                var: vars[v],
                                freed: p.freed,
                            };
                            let ghost pre = out@;
                            out.push(f);
                            proof {
                                assert(out@.last() == f);
                                assert(forall|q: int| 0 <= q < pre.len() ==> out@[q] == pre[q]);
                                assert(f == prop_concl(pas@[i as int], succs@[j as int].sink, vars@[v as int]));
                                assert(just_flow_prop(pas@, succs@, instrs@, f)) by {
                                    assert(xfer_of(instrs@[k0 as int], pas@[i as int].var)[v as int]
                                        == vars@[v as int]);
                                }
                                assert forall|m2: int|
                                    0 <= m2 < out@.len() implies just_flow_prop(
                                    pas@,
                                    succs@,
                                    instrs@,
                                    #[trigger] out@[m2],
                                ) by {
                                    if m2 < pre.len() {
                                        assert(out@[m2] == pre[m2]);
                                    } else {
                                        assert(out@[m2] == f);
                                    }
                                }
                                assert forall|i2: int, j2: int, k2: int, v2: int|
                                    #![trigger pas@[i2], succs@[j2], xfer_of(instrs@[k2], pas@[i2].var)[v2]]
                                    0 <= i2 < i && 0 <= j2 < succs@.len() && 0 <= k2 < instrs@.len()
                                        && succs@[j2].bin == pas@[i2].cur_bin && succs@[j2].src
                                        == pas@[i2].cur_addr && !succs@[j2].is_call
                                        && instrs@[k2].bin == pas@[i2].cur_bin && instrs@[k2].addr
                                        == pas@[i2].cur_addr && 0 <= v2 < xfer_of(
                                        instrs@[k2],
                                        pas@[i2].var,
                                    ).len() implies out@.contains(
                                    prop_concl(
                                        pas@[i2],
                                        succs@[j2].sink,
                                        xfer_of(instrs@[k2], pas@[i2].var)[v2],
                                    ),
                                ) by {
                                    let g = prop_concl(
                                        pas@[i2],
                                        succs@[j2].sink,
                                        xfer_of(instrs@[k2], pas@[i2].var)[v2],
                                    );
                                    let q = choose|q: int| 0 <= q < pre.len() && pre[q] == g;
                                    assert(out@[q] == g);
                                }
                                assert forall|j2: int, v2: int|
                                    #![trigger succs@[j2], vars@[v2]]
                                    0 <= j2 < j && succs@[j2].bin == p.cur_bin && succs@[j2].src
                                        == p.cur_addr && !succs@[j2].is_call && 0 <= v2
                                        < vars@.len() implies out@.contains(
                                    prop_concl(pas@[i as int], succs@[j2].sink, vars@[v2]),
                                ) by {
                                    let g = prop_concl(pas@[i as int], succs@[j2].sink, vars@[v2]);
                                    let q = choose|q: int| 0 <= q < pre.len() && pre[q] == g;
                                    assert(out@[q] == g);
                                }
                                assert forall|v2: int|
                                    0 <= v2 < v + 1 implies out@.contains(
                                    prop_concl(
                                        pas@[i as int],
                                        succs@[j as int].sink,
                                        #[trigger] vars@[v2],
                                    ),
                                ) by {
                                    let g = prop_concl(pas@[i as int], succs@[j as int].sink, vars@[v2]);
                                    if v2 < v {
                                        let q = choose|q: int| 0 <= q < pre.len() && pre[q] == g;
                                        assert(out@[q] == g);
                                    } else {
                                        assert(out@.last() == g);
                                    }
                                }
                            }
                        }
                        proof {
                            assert forall|j2: int, v2: int|
                                #![trigger succs@[j2], vars@[v2]]
                                0 <= j2 < j + 1 && succs@[j2].bin == p.cur_bin && succs@[j2].src
                                    == p.cur_addr && !succs@[j2].is_call && 0 <= v2 < vars@.len()
                                    implies out@.contains(
                                prop_concl(pas@[i as int], succs@[j2].sink, vars@[v2]),
                            ) by {
                                if j2 == j {
                                    assert(out@.contains(
                                        prop_concl(pas@[i as int], succs@[j as int].sink, vars@[v2]),
                                    ));
                                }
                            }
                        }
                    }
                }
                proof {
                    assert forall|j2: int, k2: int, v2: int|
                        #![trigger succs@[j2], xfer_of(instrs@[k2], pas@[i as int].var)[v2]]
                        0 <= j2 < succs@.len() && 0 <= k2 < instrs@.len() && succs@[j2].bin
                            == pas@[i as int].cur_bin && succs@[j2].src == pas@[i as int].cur_addr
                            && !succs@[j2].is_call && instrs@[k2].bin == pas@[i as int].cur_bin
                            && instrs@[k2].addr == pas@[i as int].cur_addr && 0 <= v2 < xfer_of(
                            instrs@[k2],
                            pas@[i as int].var,
                        ).len() implies out@.contains(
                        prop_concl(
                            pas@[i as int],
                            succs@[j2].sink,
                            xfer_of(instrs@[k2], pas@[i as int].var)[v2],
                        ),
                    ) by {
                        assert(k2 == k0);
                    }
                }
            },
        }
    }
    out
}

/// A second live state at the same site, same allocation and same
/// context, holding the argument register: what the free call is about to
/// consume may alias the tracked pointer.
pub open spec fn pa_companion(pas: Seq<PathAlias>, p: PathAlias) -> bool {
    exists|i2: int|
        0 <= i2 < pas.len() && (#[trigger] pas[i2]).src_bin == p.src_bin && pas[i2].src_addr
            == p.src_addr && pas[i2].alias_set == p.alias_set && pas[i2].stack == p.stack
            && pas[i2].chop == p.chop && pas[i2].cur_bin == p.cur_bin && pas[i2].cur_addr
            == p.cur_addr && pas[i2].var == crate::var::spec_reg(crate::var::REG_ARG0)
}

/// Executable form of `pa_companion`.
pub fn has_companion(pas: &Vec<PathAlias>, p: &PathAlias) -> (r: bool)
    ensures
        r == pa_companion(pas@, *p),
{
    let arg0 = crate::var::get_arg0();
    let n = pas.len();
    for i in 0..n
        invariant
            n == pas@.len(),
            arg0 == crate::var::spec_reg(crate::var::REG_ARG0),
            forall|i2: int|
                0 <= i2 < i ==> !((#[trigger] pas@[i2]).src_bin == p.src_bin && pas@[i2].src_addr
                    == p.src_addr && pas@[i2].alias_set == p.alias_set && pas@[i2].stack == p.stack
                    && pas@[i2].chop == p.chop && pas@[i2].cur_bin == p.cur_bin && pas@[i2].cur_addr
                    == p.cur_addr && pas@[i2].var == crate::var::spec_reg(crate::var::REG_ARG0)),
    {
        if pas[i].src_bin == p.src_bin && pas[i].src_addr == p.src_addr && pas[i].alias_set
            == p.alias_set && pas[i].stack == p.stack && pas[i].chop == p.chop && pas[i].cur_bin
            == p.cur_bin && pas[i].cur_addr == p.cur_addr && pas[i].var == arg0 {
            proof {
                assert((#[trigger] pas@[i as int]).src_bin == p.src_bin);
            }
            return true;
        }
    }
    false
}

/// The state after a free: same place as the free's fallthrough, same
/// tracked location, marked freed.
pub open spec fn free_concl(p: PathAlias, fall: u64) -> PathAlias {
    PathAlias {
        src_bin: p.src_bin,
        src_addr: p.src_addr,
        alias_set: p.alias_set,
        stack: p.stack,
        chop: p.chop,
        cur_bin: p.cur_bin,
        cur_addr: fall,
        var: p.var,
        freed: true,
    }
}

/// At a recognized free call whose argument register tracks the same
/// allocation under the same context, every live state there is carried
/// past the call marked freed: anything that may alias what was freed is
/// treated as dangling.
pub open spec fn rule_flow_free(
    pas: Seq<PathAlias>,
    free_calls: Seq<CallAddr>,
    instrs: Seq<Instr>,
    out_rel: Seq<PathAlias>,
) -> bool {
    forall|i: int, k: int|
        #![trigger pas[i], instrs[k]]
        0 <= i < pas.len() && 0 <= k < instrs.len() && free_calls.contains(
            CallAddr { bin: pas[i].cur_bin, addr: pas[i].cur_addr },
        ) && pa_companion(pas, pas[i]) && instrs[k].bin == pas[i].cur_bin && instrs[k].addr
            == pas[i].cur_addr ==> out_rel.contains(free_concl(pas[i], instrs[k].fall))
}

/// A fact justified by `rule_flow_free`.
pub open spec fn just_flow_free(
    pas: Seq<PathAlias>,
    free_calls: Seq<CallAddr>,
    instrs: Seq<Instr>,
    f: PathAlias,
) -> bool {
    exists|i: int, k: int|
        #![trigger pas[i], instrs[k]]
        0 <= i < pas.len() && 0 <= k < instrs.len() && free_calls.contains(
            CallAddr { bin: pas[i].cur_bin, addr: pas[i].cur_addr },
        ) && pa_companion(pas, pas[i]) && instrs[k].bin == pas[i].cur_bin && instrs[k].addr
            == pas[i].cur_addr && f == free_concl(pas[i], instrs[k].fall)
}

/// Derives the conclusions of `rule_flow_free`.
pub fn derive_flow_free(pas: &Vec<PathAlias>, free_calls: &Vec<CallAddr>, instrs: &Vec<Instr>) -> (out: Vec<PathAlias>)
    requires
        crate::schema::instrs_unique(instrs@),
    ensures
        rule_flow_free(pas@, free_calls@, instrs@, out@),
        forall|m: int|
            0 <= m < out@.len() ==> just_flow_free(pas@, free_calls@, instrs@, #[trigger] out@[m]),
{
    let mut out: Vec<PathAlias> = Vec::new();
    let na = pas.len();
    for i in 0..na
        invariant
            na == pas@.len(),
            crate::schema::instrs_unique(instrs@),
            forall|i2: int, k2: int|
                #![trigger pas@[i2], instrs@[k2]]
                0 <= i2 < i && 0 <= k2 < instrs@.len() && free_calls@.contains(
                    CallAddr { bin: pas@[i2].cur_bin, addr: pas@[i2].cur_addr },
                ) && pa_companion(pas@, pas@[i2]) && instrs@[k2].bin == pas@[i2].cur_bin
                    && instrs@[k2].addr == pas@[i2].cur_addr ==> out@.contains(
                    free_concl(pas@[i2], instrs@[k2].fall),
                ),
            forall|m: int|
                0 <= m < out@.len() ==> just_flow_free(
                    pas@,
                    free_calls@,
                    instrs@,
                    #[trigger] out@[m],
                ),
    {
        let p = pas[i];
        if contains_call_addr(free_calls, &CallAddr { bin: p.cur_bin, addr: p.cur_addr })
            && has_companion(pas, &p) {
            match find_instr(instrs, p.cur_bin, p.cur_addr) {
                None => {
                    proof {
                        assert forall|k2: int|
                            0 <= k2 < instrs@.len() implies !((#[trigger] instrs@[k2]).bin
                            == pas@[i as int].cur_bin && instrs@[k2].addr
                            == pas@[i as int].cur_addr) by {}
                    }
                },
                Some(k0) => {
                    let f = PathAlias {
                        src_bin: p.src_bin,
                        src_addr: p.src_addr,
                        alias_set: p.alias_set,
                        stack: p.stack,
                        chop: p.chop,
                        cur_bin: p.cur_bin,
                        cur_addr: instrs[k0].fall,
                        var: p.var,
                        freed: true,
                    };
                    let ghost pre = out@;
                    out.push(f);
                    proof {
                        assert(out@.last() == f);
                        assert(forall|q: int| 0 <= q < pre.len() ==> out@[q] == pre[q]);
                        assert(f == free_concl(pas@[i as int], instrs@[k0 as int].fall));
                        assert(just_flow_free(pas@, free_calls@, instrs@, f)) by {
                            assert((#[trigger] pas@[i as int]).cur_bin == p.cur_bin);
                            assert((#[trigger] instrs@[k0 as int]).bin == p.cur_bin);
                        }
                        assert forall|m2: int|
                            0 <= m2 < out@.len() implies just_flow_free(
                            pas@,
                            free_calls@,
                            instrs@,
                            #[trigger] out@[m2],
                        ) by {
                            if m2 < pre.len() {
                                assert(out@[m2] == pre[m2]);
                            } else {
                                assert(out@[m2] == f);
                            }
                        }
                        assert forall|i2: int, k2: int|
                            #![trigger pas@[i2], instrs@[k2]]
                            0 <= i2 < i + 1 && 0 <= k2 < instrs@.len() && free_calls@.contains(
                                CallAddr { bin: pas@[i2].cur_bin, addr: pas@[i2].cur_addr },
                            ) && pa_companion(pas@, pas@[i2]) && instrs@[k2].bin
                            == pas@[i2].cur_bin && instrs@[k2].addr == pas@[i2].cur_addr implies out@.contains(
                            free_concl(pas@[i2], instrs@[k2].fall),
                        ) by {
                            if i2 < i {
                                let g = free_concl(pas@[i2], instrs@[k2].fall);
                                let q = choose|q: int| 0 <= q < pre.len() && pre[q] == g;
                                assert(out@[q] == g);
                            } else {
                                assert(k2 == k0);
                            }
                        }
                    }
                },
            }
        } else {
            proof {
                assert forall|k2: int|
                    #![trigger instrs@[k2]]
                    0 <= k2 < instrs@.len() && free_calls@.contains(
                        CallAddr { bin: pas@[i as int].cur_bin, addr: pas@[i as int].cur_addr },
                    ) && pa_companion(pas@, pas@[i as int]) && instrs@[k2].bin
                    == pas@[i as int].cur_bin && instrs@[k2].addr == pas@[i as int].cur_addr
                    implies out@.contains(free_concl(pas@[i as int], instrs@[k2].fall)) by {
                    assert(false);
                }
            }
        }
    }
    out
}

/// A state at a stepped-over call flows to the call's own fallthrough
/// with taint transferred, except that the return-value register is
/// clobbered: the unmodeled callee's effect on it is unknown.
pub open spec fn rule_flow_skip(
    pas: Seq<PathAlias>,
    skip_funcs: Seq<CallAddr>,
    instrs: Seq<Instr>,
    out_rel: Seq<PathAlias>,
) -> bool {
    forall|i: int, k: int, v: int|
        #![trigger pas[i], xfer_of(instrs[k], pas[i].var)[v]]
        0 <= i < pas.len() && 0 <= k < instrs.len() && skip_funcs.contains(
            CallAddr { bin: pas[i].cur_bin, addr: pas[i].cur_addr },
        ) && instrs[k].bin == pas[i].cur_bin && instrs[k].addr == pas[i].cur_addr && 0 <= v
            < xfer_of(instrs[k], pas[i].var).len() && xfer_of(instrs[k], pas[i].var)[v]
            != crate::var::spec_reg(crate::var::REG_RET) ==> out_rel.contains(
            prop_concl(pas[i], instrs[k].fall, xfer_of(instrs[k], pas[i].var)[v]),
        )
}

/// A fact justified by `rule_flow_skip`.
pub open spec fn just_flow_skip(
    pas: Seq<PathAlias>,
    skip_funcs: Seq<CallAddr>,
    instrs: Seq<Instr>,
    f: PathAlias,
) -> bool {
    exists|i: int, k: int, v: int|
        #![trigger pas[i], xfer_of(instrs[k], pas[i].var)[v]]
        0 <= i < pas.len() && 0 <= k < instrs.len() && skip_funcs.contains(
            CallAddr { bin: pas[i].cur_bin, addr: pas[i].cur_addr },
        ) && instrs[k].bin == pas[i].cur_bin && instrs[k].addr == pas[i].cur_addr && 0 <= v
            < xfer_of(instrs[k], pas[i].var).len() && xfer_of(instrs[k], pas[i].var)[v]
            != crate::var::spec_reg(crate::var::REG_RET) && f == prop_concl(
            pas[i],
            instrs[k].fall,
            xfer_of(instrs[k], pas[i].var)[v],
        )
}

/// Derives the conclusions of `rule_flow_skip`.
pub fn derive_flow_skip(pas: &Vec<PathAlias>, skip_funcs: &Vec<CallAddr>, instrs: &Vec<Instr>) -> (out: Vec<PathAlias>)
    requires
        crate::schema::instrs_unique(instrs@),
    ensures
        rule_flow_skip(pas@, skip_funcs@, instrs@, out@),
        forall|m: int|
            0 <= m < out@.len() ==> just_flow_skip(pas@, skip_funcs@, instrs@, #[trigger] out@[m]),
{
    let mut out: Vec<PathAlias> = Vec::new();
    let ret_reg = crate::var::get_ret();
    let na = pas.len();
    for i in 0..na
        invariant
            na == pas@.len(),
            ret_reg == crate::var::spec_reg(crate::var::REG_RET),
            crate::schema::instrs_unique(instrs@),
            forall|i2: int, k2: int, v2: int|
                #![trigger pas@[i2], xfer_of(instrs@[k2], pas@[i2].var)[v2]]
                0 <= i2 < i && 0 <= k2 < instrs@.len() && skip_funcs@.contains(
                    CallAddr { bin: pas@[i2].cur_bin, addr: pas@[i2].cur_addr },
                ) && instrs@[k2].bin == pas@[i2].cur_bin && instrs@[k2].addr == pas@[i2].cur_addr
                    && 0 <= v2 < xfer_of(instrs@[k2], pas@[i2].var).len() && xfer_of(
                    instrs@[k2],
                    pas@[i2].var,
                )[v2] != crate::var::spec_reg(crate::var::REG_RET) ==> out@.contains(
                    prop_concl(pas@[i2], instrs@[k2].fall, xfer_of(instrs@[k2], pas@[i2].var)[v2]),
                ),
            forall|m: int|
                0 <= m < out@.len() ==> just_flow_skip(
                    pas@,
                    skip_funcs@,
                    instrs@,
                    #[trigger] out@[m],
                ),
    {
        let p = pas[i];
        if contains_call_addr(skip_funcs, &CallAddr { bin: p.cur_bin, addr: p.cur_addr }) {
            match find_instr(instrs, p.cur_bin, p.cur_addr) {
                None => {
                    proof {
                        assert forall|k2: int|
                            0 <= k2 < instrs@.len() implies !((#[trigger] instrs@[k2]).bin
                            == pas@[i as int].cur_bin && instrs@[k2].addr
                            == pas@[i as int].cur_addr) by {}
                    }
                },
                Some(k0) => {
                    let vars = crate::analyses::xfer_taint(&instrs[k0].sema, &p.var);
                    proof {
                        assert(vars@ == xfer_of(instrs@[k0 as int], pas@[i as int].var));
                    }
                    let nv = vars.len();
                    for v in 0..nv
                        invariant
                            na == pas@.len(),
                            i < na,
                            p == pas@[i as int],
                            nv == vars@.len(),
                            ret_reg == crate::var::spec_reg(crate::var::REG_RET),
                            crate::schema::instrs_unique(instrs@),
                            0 <= k0 < instrs@.len(),
                            instrs@[k0 as int].bin == p.cur_bin,
                            instrs@[k0 as int].addr == p.cur_addr,
                            skip_funcs@.contains(CallAddr { bin: p.cur_bin, addr: p.cur_addr }),
                            vars@ == xfer_of(instrs@[k0 as int], pas@[i as int].var),
                            forall|i2: int, k2: int, v2: int|
                                #![trigger pas@[i2], xfer_of(instrs@[k2], pas@[i2].var)[v2]]
                                0 <= i2 < i && 0 <= k2 < instrs@.len() && skip_funcs@.contains(
                                    CallAddr { bin: pas@[i2].cur_bin, addr: pas@[i2].cur_addr },
                                ) && instrs@[k2].bin == pas@[i2].cur_bin && instrs@[k2].addr
                                    == pas@[i2].cur_addr && 0 <= v2 < xfer_of(
                                    instrs@[k2],
                                    pas@[i2].var,
                                ).len() && xfer_of(instrs@[k2], pas@[i2].var)[v2]
                                    != crate::var::spec_reg(crate::var::REG_RET) ==> out@.contains(
                                    prop_concl(
                                        pas@[i2],
                                        instrs@[k2].fall,
                                        xfer_of(instrs@[k2], pas@[i2].var)[v2],
                                    ),
                                ),
                            forall|v2: int|
                                0 <= v2 < v && #[trigger] vars@[v2] != crate::var::spec_reg(
                                    crate::var::REG_RET,
                                ) ==> out@.contains(
                                    prop_concl(pas@[i as int], instrs@[k0 as int].fall, vars@[v2]),
                                ),
                            forall|m: int|
                                0 <= m < out@.len() ==> just_flow_skip(
                                    pas@,
                                    skip_funcs@,
                                    instrs@,
                                    #[trigger] out@[m],
                                ),
                    {
                        if !(vars[v] == ret_reg) {
                            let f = PathAlias {
                                src_bin: p.src_bin,
                                src_addr: p.src_addr,
                                alias_set: p.alias_set,
                                stack: p.stack,
                                chop: p.chop,
                                cur_bin: p.cur_bin,
                                cur_addr: instrs[k0].fall,
                                var: vars[v],
                                freed: p.freed,
                            };
                            let ghost pre = out@;
                            out.push(f);
                            proof {
                                assert(out@.last() == f);
                                assert(forall|q: int| 0 <= q < pre.len() ==> out@[q] == pre[q]);
                                assert(f == prop_concl(pas@[i as int], instrs@[k0 as int].fall, vars@[v as int]));
                                assert(just_flow_skip(pas@, skip_funcs@, instrs@, f)) by {
                                    assert(xfer_of(instrs@[k0 as int], pas@[i as int].var)[v as int]
                                        == vars@[v as int]);
                                }
                                assert forall|m2: int|
                                    0 <= m2 < out@.len() implies just_flow_skip(
                                    pas@,
                                    skip_funcs@,
                                    instrs@,
                                    #[trigger] out@[m2],
                                ) by {
                                    if m2 < pre.len() {
                                        assert(out@[m2] == pre[m2]);
                                    } else {
                                        assert(out@[m2] == f);
                                    }
                                }
                                assert forall|i2: int, k2: int, v2: int|
                                    #![trigger pas@[i2], xfer_of(instrs@[k2], pas@[i2].var)[v2]]
                                    0 <= i2 < i && 0 <= k2 < instrs@.len() && skip_funcs@.contains(
                                        CallAddr { bin: pas@[i2].cur_bin, addr: pas@[i2].cur_addr },
                                    ) && instrs@[k2].bin == pas@[i2].cur_bin && instrs@[k2].addr
                                        == pas@[i2].cur_addr && 0 <= v2 < xfer_of(
                                        instrs@[k2],
                                        pas@[i2].var,
                                    ).len() && xfer_of(instrs@[k2], pas@[i2].var)[v2]
                                        != crate::var::spec_reg(crate::var::REG_RET) implies out@.contains(
                                    prop_concl(
                                        pas@[i2],
                                        instrs@[k2].fall,
                                        xfer_of(instrs@[k2], pas@[i2].var)[v2],
                                    ),
                                ) by {
                                    let g = prop_concl(
                                        pas@[i2],
                                        instrs@[k2].fall,
                                        xfer_of(instrs@[k2], pas@[i2].var)[v2],
                                    );
                                    let q = choose|q: int| 0 <= q < pre.len() && pre[q] == g;
                                    assert(out@[q] == g);
                                }
                                assert forall|v2: int|
                                    0 <= v2 < v + 1 && #[trigger] vars@[v2]
                                        != crate::var::spec_reg(crate::var::REG_RET) implies out@.contains(
                                    prop_concl(pas@[i as int], instrs@[k0 as int].fall, vars@[v2]),
                                ) by {
                                    let g = prop_concl(pas@[i as int], instrs@[k0 as int].fall, vars@[v2]);
                                    if v2 < v {
                                        let q = choose|q: int| 0 <= q < pre.len() && pre[q] == g;
                                        assert(out@[q] == g);
                                    } else {
                                        assert(out@.last() == g);
                                    }
                                }
                            }
                        }
                    }
                    proof {
                        assert forall|k2: int, v2: int|
                            #![trigger xfer_of(instrs@[k2], pas@[i as int].var)[v2]]
                            0 <= k2 < instrs@.len() && instrs@[k2].bin == pas@[i as int].cur_bin
                                && instrs@[k2].addr == pas@[i as int].cur_addr && 0 <= v2 < xfer_of(
                                instrs@[k2],
                                pas@[i as int].var,
                            ).len() && xfer_of(instrs@[k2], pas@[i as int].var)[v2]
                                != crate::var::spec_reg(crate::var::REG_RET) implies out@.contains(
                            prop_concl(
                                pas@[i as int],
                                instrs@[k2].fall,
                                xfer_of(instrs@[k2], pas@[i as int].var)[v2],
                            ),
                        ) by {
                            assert(k2 == k0);
                        }
                    }
                },
            }
        } else {
            proof {
                assert(!skip_funcs@.contains(
                    CallAddr { bin: pas@[i as int].cur_bin, addr: pas@[i as int].cur_addr },
                ));
            }
        }
    }
    out
}

/// The state after popping one frame: resumed in the frame's binary at
/// its return site, under the frame's parent context.
pub open spec fn pop_concl(p: PathAlias, rec: StackFact) -> PathAlias {
    PathAlias {
        src_bin: p.src_bin,
        src_addr: p.src_addr,
        alias_set: p.alias_set,
        stack: rec.prev,
        chop: p.chop,
        cur_bin: rec.bin,
        cur_addr: rec.ret,
        var: p.var,
        freed: p.freed,
    }
}

/// A state at a return instruction under a non-empty context pops its
/// context's top frame and resumes at that frame's return site; a return
/// under the empty context is joined conservatively by the no-target rule
/// instead.
pub open spec fn rule_flow_ret_pop(
    pas: Seq<PathAlias>,
    instrs: Seq<Instr>,
    stacks: Seq<StackFact>,
    out_rel: Seq<PathAlias>,
) -> bool {
    forall|i: int, k: int|
        #![trigger pas[i], instrs[k]]
        0 <= i < pas.len() && 0 <= k < instrs.len() && instrs[k].bin == pas[i].cur_bin
            && instrs[k].addr == pas[i].cur_addr && instrs[k].is_ret && pas[i].stack != 0
            && pas[i].stack < stacks.len() ==> out_rel.contains(
            pop_concl(pas[i], stacks[pas[i].stack as int]),
        )
}

/// A fact justified by `rule_flow_ret_pop`.
pub open spec fn just_flow_ret_pop(
    pas: Seq<PathAlias>,
    instrs: Seq<Instr>,
    stacks: Seq<StackFact>,
    f: PathAlias,
) -> bool {
    exists|i: int, k: int|
        #![trigger pas[i], instrs[k]]
        0 <= i < pas.len() && 0 <= k < instrs.len() && instrs[k].bin == pas[i].cur_bin
            && instrs[k].addr == pas[i].cur_addr && instrs[k].is_ret && pas[i].stack != 0
            && pas[i].stack < stacks.len() && f == pop_concl(pas[i], stacks[pas[i].stack as int])
}

/// Derives the conclusions of `rule_flow_ret_pop`.
pub fn derive_flow_ret_pop(pas: &Vec<PathAlias>, instrs: &Vec<Instr>, stacks: &Vec<StackFact>) -> (out: Vec<PathAlias>)
    requires
        crate::schema::instrs_unique(instrs@),
        forall|i: int| 0 <= i < pas@.len() ==> (#[trigger] pas@[i]).stack < stacks@.len(),
    ensures
        rule_flow_ret_pop(pas@, instrs@, stacks@, out@),
        forall|m: int|
            0 <= m < out@.len() ==> just_flow_ret_pop(pas@, instrs@, stacks@, #[trigger] out@[m]),
{
    let mut out: Vec<PathAlias> = Vec::new();
    let na = pas.len();
    for i in 0..na
        invariant
            na == pas@.len(),
            crate::schema::instrs_unique(instrs@),
            forall|i3: int| 0 <= i3 < pas@.len() ==> (#[trigger] pas@[i3]).stack < stacks@.len(),
            forall|i2: int, k2: int|
                #![trigger pas@[i2], instrs@[k2]]
                0 <= i2 < i && 0 <= k2 < instrs@.len() && instrs@[k2].bin == pas@[i2].cur_bin
                    && instrs@[k2].addr == pas@[i2].cur_addr && instrs@[k2].is_ret && pas@[i2].stack
                    != 0 && pas@[i2].stack < stacks@.len() ==> out@.contains(
                    pop_concl(pas@[i2], stacks@[pas@[i2].stack as int]),
                ),
            forall|m: int|
                0 <= m < out@.len() ==> just_flow_ret_pop(
                    pas@,
                    instrs@,
                    stacks@,
                    #[trigger] out@[m],
                ),
    {
        let p = pas[i];
        match find_instr(instrs, p.cur_bin, p.cur_addr) {
            None => {
                proof {
                    assert forall|k2: int|
                        0 <= k2 < instrs@.len() implies !((#[trigger] instrs@[k2]).bin
                        == pas@[i as int].cur_bin && instrs@[k2].addr == pas@[i as int].cur_addr)
                        by {}
                }
            },
            Some(k0) => {
                if instrs[k0].is_ret && p.stack != 0 {
                    let nstacks = stacks.len();
                    proof {
                        assert(nstacks == stacks@.len());
                        assert(pas@[i as int].stack < stacks@.len());
                    }
                    #[verifier::truncate]
                    let sid = p.stack as usize;
                    proof {
                        assert(sid as int == p.stack as int);
                    }
                    let rec = stacks[sid];
                    let f = PathAlias {
                        src_bin: p.src_bin,
                        src_addr: p.src_addr,
                        alias_set: p.alias_set,
                        stack: rec.prev,
                        chop: p.chop,
                        cur_bin: rec.bin,
                        cur_addr: rec.ret,
                        var: p.var,
                        freed: p.freed,
                    };
                    let ghost pre = out@;
                    out.push(f);
                    proof {
                        assert(out@.last() == f);
                        assert(forall|q: int| 0 <= q < pre.len() ==> out@[q] == pre[q]);
                        assert(f == pop_concl(pas@[i as int], stacks@[pas@[i as int].stack as int]));
                        assert(just_flow_ret_pop(pas@, instrs@, stacks@, f)) by {
                            assert((#[trigger] instrs@[k0 as int]).is_ret);
                        }
                        assert forall|m2: int|
                            0 <= m2 < out@.len() implies just_flow_ret_pop(
                            pas@,
                            instrs@,
                            stacks@,
                            #[trigger] out@[m2],
                        ) by {
                            if m2 < pre.len() {
                                assert(out@[m2] == pre[m2]);
                            } else {
                                assert(out@[m2] == f);
                            }
                        }
                        assert forall|i2: int, k2: int|
                            #![trigger pas@[i2], instrs@[k2]]
                            0 <= i2 < i + 1 && 0 <= k2 < instrs@.len() && instrs@[k2].bin
                            == pas@[i2].cur_bin && instrs@[k2].addr == pas@[i2].cur_addr
                            && instrs@[k2].is_ret && pas@[i2].stack != 0 && pas@[i2].stack
                            < stacks@.len() implies out@.contains(
                            pop_concl(pas@[i2], stacks@[pas@[i2].stack as int]),
                        ) by {
                            if i2 < i {
                                let g = pop_concl(pas@[i2], stacks@[pas@[i2].stack as int]);
                                let q = choose|q: int| 0 <= q < pre.len() && pre[q] == g;
                                assert(out@[q] == g);
                            } else {
                                assert(k2 == k0);
                            }
                        }
                    }
                } else {
                    proof {
                        assert forall|k2: int|
                            #![trigger instrs@[k2]]
                            0 <= k2 < instrs@.len() && instrs@[k2].bin == pas@[i as int].cur_bin
                            && instrs@[k2].addr == pas@[i as int].cur_addr implies !(
                        instrs@[k2].is_ret && pas@[i as int].stack != 0) by {
                            assert(k2 == k0);
                        }
                    }
                }
            },
        }
    }
    out
}

/// Finds the interned frame record with the given parent, binary and
/// return site, if one exists.
pub fn find_stack(stacks: &Vec<StackFact>, prev: u64, bin: u64, ret: u64) -> (r: Option<usize>)
    ensures
        match r {
            Some(sid) => 0 <= sid < stacks@.len() && stacks@[sid as int].prev == prev
                && stacks@[sid as int].bin == bin && stacks@[sid as int].ret == ret,
            None => forall|s2: int|
                0 <= s2 < stacks@.len() ==> !((#[trigger] stacks@[s2]).prev == prev
                    && stacks@[s2].bin == bin && stacks@[s2].ret == ret),
        },
{
    let n = stacks.len();
    for sid in 0..n
        invariant
            n == stacks@.len(),
            forall|s2: int|
                0 <= s2 < sid ==> !((#[trigger] stacks@[s2]).prev == prev && stacks@[s2].bin == bin
                    && stacks@[s2].ret == ret),
    {
        if stacks[sid].prev == prev && stacks[sid].bin == bin && stacks[sid].ret == ret {
            return Some(sid);
        }
    }
    None
}

/// The state entered into a callee: the extended context, the grown chop
/// and the transferred location at the callee's entry.
pub open spec fn call_concl(p: PathAlias, cs: CallSite, s2: int, c2: Chop, var2: HVar) -> PathAlias {
    PathAlias {
        src_bin: p.src_bin,
        src_addr: p.src_addr,
        alias_set: p.alias_set,
        stack: s2 as u64,
        chop: c2,
        cur_bin: cs.dst_bin,
        cur_addr: cs.dst_addr,
        var: var2,
        freed: p.freed,
    }
}

/// A state at a resolved call enters the callee under the pushed context,
/// provided the chop admits the call target; a target that would overflow
/// the chop prunes the branch.
pub open spec fn rule_flow_call(
    pas: Seq<PathAlias>,
    instrs: Seq<Instr>,
    call_sites: Seq<CallSite>,
    stacks: Seq<StackFact>,
    out_rel: Seq<PathAlias>,
) -> bool {
    forall|i: int, k: int, j: int, s2: int, v: int|
        #![trigger pas[i], call_sites[j], stacks[s2], xfer_of(instrs[k], pas[i].var)[v]]
        0 <= i < pas.len() && 0 <= k < instrs.len() && 0 <= j < call_sites.len() && 0 <= s2
            < stacks.len() && instrs[k].bin == pas[i].cur_bin && instrs[k].addr == pas[i].cur_addr
            && call_sites[j].src_bin == pas[i].cur_bin && call_sites[j].src_addr
            == pas[i].cur_addr && stacks[s2].prev == pas[i].stack && stacks[s2].bin
            == pas[i].cur_bin && stacks[s2].ret == instrs[k].fall && crate::chop::chop_check_spec(
            pas[i].chop,
            call_sites[j].dst_addr,
        ).len() > 0 && 0 <= v < xfer_of(instrs[k], pas[i].var).len() ==> out_rel.contains(
            call_concl(
                pas[i],
                call_sites[j],
                s2,
                crate::chop::chop_check_spec(pas[i].chop, call_sites[j].dst_addr)[0],
                xfer_of(instrs[k], pas[i].var)[v],
            ),
        )
}

/// A fact justified by `rule_flow_call`.
pub open spec fn just_flow_call(
    pas: Seq<PathAlias>,
    instrs: Seq<Instr>,
    call_sites: Seq<CallSite>,
    stacks: Seq<StackFact>,
    f: PathAlias,
) -> bool {
    exists|i: int, k: int, j: int, s2: int, v: int|
        #![trigger pas[i], call_sites[j], stacks[s2], xfer_of(instrs[k], pas[i].var)[v]]
        0 <= i < pas.len() && 0 <= k < instrs.len() && 0 <= j < call_sites.len() && 0 <= s2
            < stacks.len() && instrs[k].bin == pas[i].cur_bin && instrs[k].addr == pas[i].cur_addr
            && call_sites[j].src_bin == pas[i].cur_bin && call_sites[j].src_addr
            == pas[i].cur_addr && stacks[s2].prev == pas[i].stack && stacks[s2].bin
            == pas[i].cur_bin && stacks[s2].ret == instrs[k].fall && crate::chop::chop_check_spec(
            pas[i].chop,
            call_sites[j].dst_addr,
        ).len() > 0 && 0 <= v < xfer_of(instrs[k], pas[i].var).len() && f == call_concl(
            pas[i],
            call_sites[j],
            s2,
            crate::chop::chop_check_spec(pas[i].chop, call_sites[j].dst_addr)[0],
            xfer_of(instrs[k], pas[i].var)[v],
        )
}

/// Derives the conclusions of `rule_flow_call`.
pub fn derive_flow_call(
    pas: &Vec<PathAlias>,
    instrs: &Vec<Instr>,
    call_sites: &Vec<CallSite>,
    stacks: &Vec<StackFact>,
) -> (out: Vec<PathAlias>)
    requires
        crate::schema::instrs_unique(instrs@),
        crate::schema::stacks_wf(stacks@),
        forall|i: int| 0 <= i < pas@.len() ==> crate::chop::chop_wf((#[trigger] pas@[i]).chop),
    ensures
        rule_flow_call(pas@, instrs@, call_sites@, stacks@, out@),
        forall|m: int|
            0 <= m < out@.len() ==> just_flow_call(
                pas@,
                instrs@,
                call_sites@,
                stacks@,
                #[trigger] out@[m],
            ),
{
    let mut out: Vec<PathAlias> = Vec::new();
    let na = pas.len();
    for i in 0..na
        invariant
            na == pas@.len(),
            crate::schema::instrs_unique(instrs@),
            crate::schema::stacks_wf(stacks@),
            forall|i3: int| 0 <= i3 < pas@.len() ==> crate::chop::chop_wf((#[trigger] pas@[i3]).chop),
            forall|i2: int, k2: int, j2: int, s3: int, v2: int|
                #![trigger pas@[i2], call_sites@[j2], stacks@[s3], xfer_of(instrs@[k2], pas@[i2].var)[v2]]
                0 <= i2 < i && 0 <= k2 < instrs@.len() && 0 <= j2 < call_sites@.len() && 0 <= s3
                    < stacks@.len() && instrs@[k2].bin == pas@[i2].cur_bin && instrs@[k2].addr
                    == pas@[i2].cur_addr && call_sites@[j2].src_bin == pas@[i2].cur_bin
                    && call_sites@[j2].src_addr == pas@[i2].cur_addr && stacks@[s3].prev
                    == pas@[i2].stack && stacks@[s3].bin == pas@[i2].cur_bin && stacks@[s3].ret
                    == instrs@[k2].fall && crate::chop::chop_check_spec(
                    pas@[i2].chop,
                    call_sites@[j2].dst_addr,
                ).len() > 0 && 0 <= v2 < xfer_of(instrs@[k2], pas@[i2].var).len() ==> out@.contains(
                    call_concl(
                        pas@[i2],
                        call_sites@[j2],
                        s3,
                        crate::chop::chop_check_spec(pas@[i2].chop, call_sites@[j2].dst_addr)[0],
                        xfer_of(instrs@[k2], pas@[i2].var)[v2],
                    ),
                ),
            forall|m: int|
                0 <= m < out@.len() ==> just_flow_call(
                    pas@,
                    instrs@,
                    call_sites@,
                    stacks@,
                    #[trigger] out@[m],
                ),
    {
        let p = pas[i];
        match find_instr(instrs, p.cur_bin, p.cur_addr) {
            None => {
                proof {
                    assert forall|k2: int|
                        0 <= k2 < instrs@.len() implies !((#[trigger] instrs@[k2]).bin
                        == pas@[i as int].cur_bin && instrs@[k2].addr == pas@[i as int].cur_addr)
                        by {}
                }
            },
            Some(k0) => {
                let fall = instrs[k0].fall;
                let vars = crate::analyses::xfer_taint(&instrs[k0].sema, &p.var);
                proof {
                    assert(vars@ == xfer_of(instrs@[k0 as int], pas@[i as int].var));
                }
                match find_stack(stacks, p.stack, p.cur_bin, fall) {
                    None => {
                        proof {
                            assert forall|k2: int, s3: int|
                                #![trigger instrs@[k2], stacks@[s3]]
                                0 <= k2 < instrs@.len() && 0 <= s3 < stacks@.len()
                                    && instrs@[k2].bin == pas@[i as int].cur_bin && instrs@[k2].addr
                                    == pas@[i as int].cur_addr && stacks@[s3].prev
                                    == pas@[i as int].stack && stacks@[s3].bin
                                    == pas@[i as int].cur_bin && stacks@[s3].ret == instrs@[k2].fall
                                    implies false by {
                                assert(k2 == k0);
                                assert(!((#[trigger] stacks@[s3]).prev == p.stack && stacks@[s3].bin
                                    == p.cur_bin && stacks@[s3].ret == fall));
                            }
                        }
                    },
                    Some(sid) => {
                        let nj = call_sites.len();
                        for j in 0..nj
                            invariant
                                na == pas@.len(),
                                i < na,
                                p == pas@[i as int],
                                nj == call_sites@.len(),
                                crate::schema::instrs_unique(instrs@),
                                crate::schema::stacks_wf(stacks@),
                                forall|i3: int|
                                    0 <= i3 < pas@.len() ==> crate::chop::chop_wf(
                                        (#[trigger] pas@[i3]).chop,
                                    ),
                                0 <= k0 < instrs@.len(),
                                instrs@[k0 as int].bin == p.cur_bin,
                                instrs@[k0 as int].addr == p.cur_addr,
                                instrs@[k0 as int].fall == fall,
                                0 <= sid < stacks@.len(),
                                stacks@[sid as int].prev == p.stack,
                                stacks@[sid as int].bin == p.cur_bin,
                                stacks@[sid as int].ret == fall,
                                vars@ == xfer_of(instrs@[k0 as int], pas@[i as int].var),
                                forall|i2: int, k2: int, j2: int, s3: int, v2: int|
                                    #![trigger pas@[i2], call_sites@[j2], stacks@[s3], xfer_of(instrs@[k2], pas@[i2].var)[v2]]
                                    0 <= i2 < i && 0 <= k2 < instrs@.len() && 0 <= j2
                                        < call_sites@.len() && 0 <= s3 < stacks@.len()
                                        && instrs@[k2].bin == pas@[i2].cur_bin && instrs@[k2].addr
                                        == pas@[i2].cur_addr && call_sites@[j2].src_bin
                                        == pas@[i2].cur_bin && call_sites@[j2].src_addr
                                        == pas@[i2].cur_addr && stacks@[s3].prev == pas@[i2].stack
                                        && stacks@[s3].bin == pas@[i2].cur_bin && stacks@[s3].ret
                                        == instrs@[k2].fall && crate::chop::chop_check_spec(
                                        pas@[i2].chop,
                                        call_sites@[j2].dst_addr,
                                    ).len() > 0 && 0 <= v2 < xfer_of(instrs@[k2], pas@[i2].var).len()
                                        ==> out@.contains(
                                        call_concl(
                                            pas@[i2],
                                            call_sites@[j2],
                                            s3,
                                            crate::chop::chop_check_spec(
                                                pas@[i2].chop,
                                                call_sites@[j2].dst_addr,
                                            )[0],
                                            xfer_of(instrs@[k2], pas@[i2].var)[v2],
                                        ),
                                    ),
                                forall|j2: int, v2: int|
                                    #![trigger call_sites@[j2], vars@[v2]]
                                    0 <= j2 < j && call_sites@[j2].src_bin == p.cur_bin
                                        && call_sites@[j2].src_addr == p.cur_addr
                                        && crate::chop::chop_check_spec(
                                        p.chop,
                                        call_sites@[j2].dst_addr,
                                    ).len() > 0 && 0 <= v2 < vars@.len() ==> out@.contains(
                                        call_concl(
                                            pas@[i as int],
                                            call_sites@[j2],
                                            sid as int,
                                            crate::chop::chop_check_spec(
                                                p.chop,
                                                call_sites@[j2].dst_addr,
                                            )[0],
                                            vars@[v2],
                                        ),
                                    ),
                                forall|m: int|
                                    0 <= m < out@.len() ==> just_flow_call(
                                        pas@,
                                        instrs@,
                                        call_sites@,
                                        stacks@,
                                        #[trigger] out@[m],
                                    ),
                        {
                            if call_sites[j].src_bin == p.cur_bin && call_sites[j].src_addr
                                == p.cur_addr {
                                proof {
                                    assert(crate::chop::chop_wf(pas@[i as int].chop));
                                }
                                let chops = p.chop.check(call_sites[j].dst_addr);
                                if chops.len() > 0 {
                                    let c2 = chops[0];
                                    proof {
                                        assert(c2 == crate::chop::chop_check_spec(
                                            p.chop,
                                            call_sites@[j as int].dst_addr,
                                        )[0]);
                                    }
                                    let nv = vars.len();
                                    for v in 0..nv
                                        invariant
                                            na == pas@.len(),
                                            i < na,
                                            j < nj,
                                            p == pas@[i as int],
                                            nj == call_sites@.len(),
                                            nv == vars@.len(),
                                            crate::schema::instrs_unique(instrs@),
                                            crate::schema::stacks_wf(stacks@),
                                            forall|i3: int|
                                                0 <= i3 < pas@.len() ==> crate::chop::chop_wf(
                                                    (#[trigger] pas@[i3]).chop,
                                                ),
                                            0 <= k0 < instrs@.len(),
                                            instrs@[k0 as int].bin == p.cur_bin,
                                            instrs@[k0 as int].addr == p.cur_addr,
                                            instrs@[k0 as int].fall == fall,
                                            0 <= sid < stacks@.len(),
                                            stacks@[sid as int].prev == p.stack,
                                            stacks@[sid as int].bin == p.cur_bin,
                                            stacks@[sid as int].ret == fall,
                                            call_sites@[j as int].src_bin == p.cur_bin,
                                            call_sites@[j as int].src_addr == p.cur_addr,
                                            crate::chop::chop_check_spec(
                                                p.chop,
                                                call_sites@[j as int].dst_addr,
                                            ).len() > 0,
                                            c2 == crate::chop::chop_check_spec(
                                                p.chop,
                                                call_sites@[j as int].dst_addr,
                                            )[0],
                                            vars@ == xfer_of(instrs@[k0 as int], pas@[i as int].var),
                                            forall|i2: int, k2: int, j2: int, s3: int, v2: int|
                                                #![trigger pas@[i2], call_sites@[j2], stacks@[s3], xfer_of(instrs@[k2], pas@[i2].var)[v2]]
                                                0 <= i2 < i && 0 <= k2 < instrs@.len() && 0 <= j2
                                                    < call_sites@.len() && 0 <= s3 < stacks@.len()
                                                    && instrs@[k2].bin == pas@[i2].cur_bin
                                                    && instrs@[k2].addr == pas@[i2].cur_addr
                                                    && call_sites@[j2].src_bin == pas@[i2].cur_bin
                                                    && call_sites@[j2].src_addr
                                                    == pas@[i2].cur_addr && stacks@[s3].prev
                                                    == pas@[i2].stack && stacks@[s3].bin
                                                    == pas@[i2].cur_bin && stacks@[s3].ret
                                                    == instrs@[k2].fall
                                                    && crate::chop::chop_check_spec(
                                                    pas@[i2].chop,
                                                    call_sites@[j2].dst_addr,
                                                ).len() > 0 && 0 <= v2 < xfer_of(
                                                    instrs@[k2],
                                                    pas@[i2].var,
                                                ).len() ==> out@.contains(
                                                    call_concl(
                                                        pas@[i2],
                                                        call_sites@[j2],
                                                        s3,
                                                        crate::chop::chop_check_spec(
                                                            pas@[i2].chop,
                                                            call_sites@[j2].dst_addr,
                                                        )[0],
                                                        xfer_of(instrs@[k2], pas@[i2].var)[v2],
                                                    ),
                                                ),
                                            forall|j2: int, v2: int|
                                                #![trigger call_sites@[j2], vars@[v2]]
                                                0 <= j2 < j && call_sites@[j2].src_bin == p.cur_bin
                                                    && call_sites@[j2].src_addr == p.cur_addr
                                                    && crate::chop::chop_check_spec(
                                                    p.chop,
                                                    call_sites@[j2].dst_addr,
                                                ).len() > 0 && 0 <= v2 < vars@.len()
                                                    ==> out@.contains(
                                                    call_concl(
                                                        pas@[i as int],
                                                        call_sites@[j2],
                                                        sid as int,
                                                        crate::chop::chop_check_spec(
                                                            p.chop,
                                                            call_sites@[j2].dst_addr,
                                                        )[0],
                                                        vars@[v2],
                                                    ),
                                                ),
                                            forall|v2: int|
                                                0 <= v2 < v ==> out@.contains(
                                                    call_concl(
                                                        pas@[i as int],
                                                        call_sites@[j as int],
                                                        sid as int,
                                                        c2,
                                                        #[trigger] vars@[v2],
                                                    ),
                                                ),
                                            forall|m: int|
                                                0 <= m < out@.len() ==> just_flow_call(
                                                    pas@,
                                                    instrs@,
                                                    call_sites@,
                                                    stacks@,
                                                    #[trigger] out@[m],
                                                ),
                                    {
                                        let f = PathAlias {
                                            src_bin: p.src_bin,
                                            src_addr: p.src_addr,
                                            alias_set: p.alias_set,
                                            stack: sid as u64,
                                            chop: c2,
                                            cur_bin: call_sites[j].dst_bin,
                                            cur_addr: call_sites[j].dst_addr,
                                            var: vars[v],
                                            freed: p.freed,
                                        };
                                        let ghost pre = out@;
                                        out.push(f);
                                        proof {
                                            assert(out@.last() == f);
                                            assert(forall|q: int|
                                                0 <= q < pre.len() ==> out@[q] == pre[q]);
                                            assert(f == call_concl(
                                                pas@[i as int],
                                                call_sites@[j as int],
                                                sid as int,
                                                c2,
                                                vars@[v as int],
                                            ));
                                            assert(just_flow_call(
                                                pas@,
                                                instrs@,
                                                call_sites@,
                                                stacks@,
                                                f,
                                            )) by {
                                                assert(xfer_of(
                                                    instrs@[k0 as int],
                                                    pas@[i as int].var,
                                                )[v as int] == vars@[v as int]);
                                                assert((#[trigger] stacks@[sid as int]).prev
                                                    == p.stack);
                                            }
                                            assert forall|m2: int|
                                                0 <= m2 < out@.len() implies just_flow_call(
                                                pas@,
                                                instrs@,
                                                call_sites@,
                                                stacks@,
                                                #[trigger] out@[m2],
                                            ) by {
                                                if m2 < pre.len() {
                                                    assert(out@[m2] == pre[m2]);
                                                } else {
                                                    assert(out@[m2] == f);
                                                }
                                            }
                                            assert forall|i2: int, k2: int, j2: int, s3: int, v2: int|
                                                #![trigger pas@[i2], call_sites@[j2], stacks@[s3], xfer_of(instrs@[k2], pas@[i2].var)[v2]]
                                                0 <= i2 < i && 0 <= k2 < instrs@.len() && 0 <= j2
                                                    < call_sites@.len() && 0 <= s3 < stacks@.len()
                                                    && instrs@[k2].bin == pas@[i2].cur_bin
                                                    && instrs@[k2].addr == pas@[i2].cur_addr
                                                    && call_sites@[j2].src_bin == pas@[i2].cur_bin
                                                    && call_sites@[j2].src_addr
                                                    == pas@[i2].cur_addr && stacks@[s3].prev
                                                    == pas@[i2].stack && stacks@[s3].bin
                                                    == pas@[i2].cur_bin && stacks@[s3].ret
                                                    == instrs@[k2].fall
                                                    && crate::chop::chop_check_spec(
                                                    pas@[i2].chop,
                                                    call_sites@[j2].dst_addr,
                                                ).len() > 0 && 0 <= v2 < xfer_of(
                                                    instrs@[k2],
                                                    pas@[i2].var,
                                                ).len() implies out@.contains(
                                                call_concl(
                                                    pas@[i2],
                                                    call_sites@[j2],
                                                    s3,
                                                    crate::chop::chop_check_spec(
                                                        pas@[i2].chop,
                                                        call_sites@[j2].dst_addr,
                                                    )[0],
                                                    xfer_of(instrs@[k2], pas@[i2].var)[v2],
                                                ),
                                            ) by {
                                                let g = call_concl(
                                                    pas@[i2],
                                                    call_sites@[j2],
                                                    s3,
                                                    crate::chop::chop_check_spec(
                                                        pas@[i2].chop,
                                                        call_sites@[j2].dst_addr,
                                                    )[0],
                                                    xfer_of(instrs@[k2], pas@[i2].var)[v2],
                                                );
                                                let q = choose|q: int|
                                                    0 <= q < pre.len() && pre[q] == g;
                                                assert(out@[q] == g);
                                            }
                                            assert forall|j2: int, v2: int|
                                                #![trigger call_sites@[j2], vars@[v2]]
                                                0 <= j2 < j && call_sites@[j2].src_bin == p.cur_bin
                                                    && call_sites@[j2].src_addr == p.cur_addr
                                                    && crate::chop::chop_check_spec(
                                                    p.chop,
                                                    call_sites@[j2].dst_addr,
                                                ).len() > 0 && 0 <= v2 < vars@.len()
                                                    implies out@.contains(
                                                call_concl(
                                                    pas@[i as int],
                                                    call_sites@[j2],
                                                    sid as int,
                                                    crate::chop::chop_check_spec(
                                                        p.chop,
                                                        call_sites@[j2].dst_addr,
                                                    )[0],
                                                    vars@[v2],
                                                ),
                                            ) by {
                                                let g = call_concl(
                                                    pas@[i as int],
                                                    call_sites@[j2],
                                                    sid as int,
                                                    crate::chop::chop_check_spec(
                                                        p.chop,
                                                        call_sites@[j2].dst_addr,
                                                    )[0],
                                                    vars@[v2],
                                                );
                                                let q = choose|q: int|
                                                    0 <= q < pre.len() && pre[q] == g;
                                                assert(out@[q] == g);
                                            }
                                            assert forall|v2: int|
                                                0 <= v2 < v + 1 implies out@.contains(
                                                call_concl(
                                                    pas@[i as int],
                                                    call_sites@[j as int],
                                                    sid as int,
                                                    c2,
                                                    #[trigger] vars@[v2],
                                                ),
                                            ) by {
                                                let g = call_concl(
                                                    pas@[i as int],
                                                    call_sites@[j as int],
                                                    sid as int,
                                                    c2,
                                                    vars@[v2],
                                                );
                                                if v2 < v {
                                                    let q = choose|q: int|
                                                        0 <= q < pre.len() && pre[q] == g;
                                                    assert(out@[q] == g);
                                                } else {
                                                    assert(out@.last() == g);
                                                }
                                            }
                                        }
                                    }
                                    proof {
                                        assert forall|j2: int, v2: int|
                                            #![trigger call_sites@[j2], vars@[v2]]
                                            0 <= j2 < j + 1 && call_sites@[j2].src_bin == p.cur_bin
                                                && call_sites@[j2].src_addr == p.cur_addr
                                                && crate::chop::chop_check_spec(
                                                p.chop,
                                                call_sites@[j2].dst_addr,
                                            ).len() > 0 && 0 <= v2 < vars@.len() implies out@.contains(
                                            call_concl(
                                                pas@[i as int],
                                                call_sites@[j2],
                                                sid as int,
                                                crate::chop::chop_check_spec(
                                                    p.chop,
                                                    call_sites@[j2].dst_addr,
                                                )[0],
                                                vars@[v2],
                                            ),
                                        ) by {
                                            if j2 == j {
                                                assert(out@.contains(
                                                    call_concl(
                                                        pas@[i as int],
                                                        call_sites@[j as int],
                                                        sid as int,
                                                        c2,
                                                        vars@[v2],
                                                    ),
                                                ));
                                            }
                                        }
                                    }
                                } else {
                                    proof {
                                        assert(crate::chop::chop_check_spec(
                                            p.chop,
                                            call_sites@[j as int].dst_addr,
                                        ).len() == 0);
                                    }
                                }
                            }
                        }
                        proof {
                            assert forall|k2: int, j2: int, s3: int, v2: int|
                                #![trigger call_sites@[j2], stacks@[s3], xfer_of(instrs@[k2], pas@[i as int].var)[v2]]
                                0 <= k2 < instrs@.len() && 0 <= j2 < call_sites@.len() && 0 <= s3
                                    < stacks@.len() && instrs@[k2].bin == pas@[i as int].cur_bin
                                    && instrs@[k2].addr == pas@[i as int].cur_addr
                                    && call_sites@[j2].src_bin == pas@[i as int].cur_bin
                                    && call_sites@[j2].src_addr == pas@[i as int].cur_addr
                                    && stacks@[s3].prev == pas@[i as int].stack && stacks@[s3].bin
                                    == pas@[i as int].cur_bin && stacks@[s3].ret == instrs@[k2].fall
                                    && crate::chop::chop_check_spec(
                                    pas@[i as int].chop,
                                    call_sites@[j2].dst_addr,
                                ).len() > 0 && 0 <= v2 < xfer_of(instrs@[k2], pas@[i as int].var).len()
                                    implies out@.contains(
                                call_concl(
                                    pas@[i as int],
                                    call_sites@[j2],
                                    s3,
                                    crate::chop::chop_check_spec(
                                        pas@[i as int].chop,
                                        call_sites@[j2].dst_addr,
                                    )[0],
                                    xfer_of(instrs@[k2], pas@[i as int].var)[v2],
                                ),
                            ) by {
                                assert(k2 == k0);
                                assert(s3 == sid);
                            }
                        }
                    },
                }
            },
        }
    }
    out
}

/// The state resumed at a caller of the returning function: empty
/// context, chop grown by the function's entry.
pub open spec fn retno_concl(p: PathAlias, cs: CallSite, fall2: u64, c2: Chop) -> PathAlias {
    PathAlias {
        src_bin: p.src_bin,
        src_addr: p.src_addr,
        alias_set: p.alias_set,
        stack: 0,
        chop: c2,
        cur_bin: cs.src_bin,
        cur_addr: fall2,
        var: p.var,
        freed: p.freed,
    }
}

/// A state returning under the empty context resumes at every statically
/// known call site of the returning function: the one context-insensitive
/// join point, bounding outermost-frame context growth.
pub open spec fn rule_flow_ret_notarget(
    pas: Seq<PathAlias>,
    funcs: Seq<FuncFact>,
    call_sites: Seq<CallSite>,
    instrs: Seq<Instr>,
    out_rel: Seq<PathAlias>,
) -> bool {
    forall|i: int, j: int, k: int, m: int, m2: int|
        #![trigger pas[i], funcs[j], call_sites[k], instrs[m], instrs[m2]]
        0 <= i < pas.len() && 0 <= j < funcs.len() && 0 <= k < call_sites.len() && 0 <= m
            < instrs.len() && 0 <= m2 < instrs.len() && pas[i].stack == 0 && funcs[j].bin
            == pas[i].cur_bin && funcs[j].addr == pas[i].cur_addr && call_sites[k].dst_bin
            == pas[i].cur_bin && call_sites[k].dst_addr == funcs[j].entry && instrs[m].bin
            == pas[i].cur_bin && instrs[m].addr == pas[i].cur_addr && instrs[m].is_ret
            && instrs[m2].bin == call_sites[k].src_bin && instrs[m2].addr == call_sites[k].src_addr
            && crate::chop::chop_check_spec(pas[i].chop, funcs[j].entry).len() > 0
            ==> out_rel.contains(
            retno_concl(
                pas[i],
                call_sites[k],
                instrs[m2].fall,
                crate::chop::chop_check_spec(pas[i].chop, funcs[j].entry)[0],
            ),
        )
}

/// A fact justified by `rule_flow_ret_notarget`.
pub open spec fn just_flow_ret_notarget(
    pas: Seq<PathAlias>,
    funcs: Seq<FuncFact>,
    call_sites: Seq<CallSite>,
    instrs: Seq<Instr>,
    f: PathAlias,
) -> bool {
    exists|i: int, j: int, k: int, m: int, m2: int|
        #![trigger pas[i], funcs[j], call_sites[k], instrs[m], instrs[m2]]
        0 <= i < pas.len() && 0 <= j < funcs.len() && 0 <= k < call_sites.len() && 0 <= m
            < instrs.len() && 0 <= m2 < instrs.len() && pas[i].stack == 0 && funcs[j].bin
            == pas[i].cur_bin && funcs[j].addr == pas[i].cur_addr && call_sites[k].dst_bin
            == pas[i].cur_bin && call_sites[k].dst_addr == funcs[j].entry && instrs[m].bin
            == pas[i].cur_bin && instrs[m].addr == pas[i].cur_addr && instrs[m].is_ret
            && instrs[m2].bin == call_sites[k].src_bin && instrs[m2].addr == call_sites[k].src_addr
            && crate::chop::chop_check_spec(pas[i].chop, funcs[j].entry).len() > 0 && f
            == retno_concl(
            pas[i],
            call_sites[k],
            instrs[m2].fall,
            crate::chop::chop_check_spec(pas[i].chop, funcs[j].entry)[0],
        )
}

/// Derives the conclusions of `rule_flow_ret_notarget`.
#[verifier::rlimit(100)]
pub fn derive_flow_ret_notarget(
    pas: &Vec<PathAlias>,
    funcs: &Vec<FuncFact>,
    call_sites: &Vec<CallSite>,
    instrs: &Vec<Instr>,
) -> (out: Vec<PathAlias>)
    requires
        crate::schema::instrs_unique(instrs@),
        forall|i: int| 0 <= i < pas@.len() ==> crate::chop::chop_wf((#[trigger] pas@[i]).chop),
    ensures
        rule_flow_ret_notarget(pas@, funcs@, call_sites@, instrs@, out@),
        forall|m: int|
            0 <= m < out@.len() ==> just_flow_ret_notarget(
                pas@,
                funcs@,
                call_sites@,
                instrs@,
                #[trigger] out@[m],
            ),
{
    let mut out: Vec<PathAlias> = Vec::new();
    let na = pas.len();
    for i in 0..na
        invariant
            na == pas@.len(),
            crate::schema::instrs_unique(instrs@),
            forall|i3: int| 0 <= i3 < pas@.len() ==> crate::chop::chop_wf((#[trigger] pas@[i3]).chop),
            forall|i2: int, j2: int, k2: int, m3: int, m4: int|
                #![trigger pas@[i2], funcs@[j2], call_sites@[k2], instrs@[m3], instrs@[m4]]
                0 <= i2 < i && 0 <= j2 < funcs@.len() && 0 <= k2 < call_sites@.len() && 0 <= m3
                    < instrs@.len() && 0 <= m4 < instrs@.len() && pas@[i2].stack == 0
                    && funcs@[j2].bin == pas@[i2].cur_bin && funcs@[j2].addr == pas@[i2].cur_addr
                    && call_sites@[k2].dst_bin == pas@[i2].cur_bin && call_sites@[k2].dst_addr
                    == funcs@[j2].entry && instrs@[m3].bin == pas@[i2].cur_bin && instrs@[m3].addr
                    == pas@[i2].cur_addr && instrs@[m3].is_ret && instrs@[m4].bin
                    == call_sites@[k2].src_bin && instrs@[m4].addr == call_sites@[k2].src_addr
                    && crate::chop::chop_check_spec(pas@[i2].chop, funcs@[j2].entry).len() > 0
                    ==> out@.contains(
                    retno_concl(
                        pas@[i2],
                        call_sites@[k2],
                        instrs@[m4].fall,
                        crate::chop::chop_check_spec(pas@[i2].chop, funcs@[j2].entry)[0],
                    ),
                ),
            forall|mm: int|
                0 <= mm < out@.len() ==> just_flow_ret_notarget(
                    pas@,
                    funcs@,
                    call_sites@,
                    instrs@,
                    #[trigger] out@[mm],
                ),
    {
        let p = pas[i];
        let mut skip_state = true;
        let mut m0: usize = 0;
        if p.stack == 0 {
            match find_instr(instrs, p.cur_bin, p.cur_addr) {
                None => {
                    proof {
                        assert forall|m3: int|
                            0 <= m3 < instrs@.len() implies !((#[trigger] instrs@[m3]).bin
                            == pas@[i as int].cur_bin && instrs@[m3].addr
                            == pas@[i as int].cur_addr) by {}
                    }
                },
                Some(mf) => {
                    if instrs[mf].is_ret {
                        skip_state = false;
                        m0 = mf;
                    } else {
                        proof {
                            assert forall|m3: int|
                                #![trigger instrs@[m3]]
                                0 <= m3 < instrs@.len() && instrs@[m3].bin
                                == pas@[i as int].cur_bin && instrs@[m3].addr
                                == pas@[i as int].cur_addr implies !instrs@[m3].is_ret by {
                                assert(m3 == mf);
                            }
                        }
                    }
                },
            }
        }
        if !skip_state {
            let nj = funcs.len();
            for j in 0..nj
                invariant
                    na == pas@.len(),
                    i < na,
                    p == pas@[i as int],
                    p.stack == 0,
                    nj == funcs@.len(),
                    crate::schema::instrs_unique(instrs@),
                    forall|i3: int|
                        0 <= i3 < pas@.len() ==> crate::chop::chop_wf((#[trigger] pas@[i3]).chop),
                    0 <= m0 < instrs@.len(),
                    instrs@[m0 as int].bin == p.cur_bin,
                    instrs@[m0 as int].addr == p.cur_addr,
                    instrs@[m0 as int].is_ret,
                    forall|i2: int, j2: int, k2: int, m3: int, m4: int|
                        #![trigger pas@[i2], funcs@[j2], call_sites@[k2], instrs@[m3], instrs@[m4]]
                        0 <= i2 < i && 0 <= j2 < funcs@.len() && 0 <= k2 < call_sites@.len() && 0
                            <= m3 < instrs@.len() && 0 <= m4 < instrs@.len() && pas@[i2].stack == 0
                            && funcs@[j2].bin == pas@[i2].cur_bin && funcs@[j2].addr
                            == pas@[i2].cur_addr && call_sites@[k2].dst_bin == pas@[i2].cur_bin
                            && call_sites@[k2].dst_addr == funcs@[j2].entry && instrs@[m3].bin
                            == pas@[i2].cur_bin && instrs@[m3].addr == pas@[i2].cur_addr
                            && instrs@[m3].is_ret && instrs@[m4].bin == call_sites@[k2].src_bin
                            && instrs@[m4].addr == call_sites@[k2].src_addr
                            && crate::chop::chop_check_spec(pas@[i2].chop, funcs@[j2].entry).len()
                            > 0 ==> out@.contains(
                            retno_concl(
                                pas@[i2],
                                call_sites@[k2],
                                instrs@[m4].fall,
                                crate::chop::chop_check_spec(pas@[i2].chop, funcs@[j2].entry)[0],
                            ),
                        ),
                    forall|j2: int, k2: int, m4: int|
                        #![trigger funcs@[j2], call_sites@[k2], instrs@[m4]]
                        0 <= j2 < j && 0 <= k2 < call_sites@.len() && 0 <= m4 < instrs@.len()
                            && funcs@[j2].bin == p.cur_bin && funcs@[j2].addr == p.cur_addr
                            && call_sites@[k2].dst_bin == p.cur_bin && call_sites@[k2].dst_addr
                            == funcs@[j2].entry && instrs@[m4].bin == call_sites@[k2].src_bin
                            && instrs@[m4].addr == call_sites@[k2].src_addr
                            && crate::chop::chop_check_spec(p.chop, funcs@[j2].entry).len() > 0
                            ==> out@.contains(
                            retno_concl(
                                pas@[i as int],
                                call_sites@[k2],
                                instrs@[m4].fall,
                                crate::chop::chop_check_spec(p.chop, funcs@[j2].entry)[0],
                            ),
                        ),
                    forall|mm: int|
                        0 <= mm < out@.len() ==> just_flow_ret_notarget(
                            pas@,
                            funcs@,
                            call_sites@,
                            instrs@,
                            #[trigger] out@[mm],
                        ),
            {
                if funcs[j].bin == p.cur_bin && funcs[j].addr == p.cur_addr {
                    proof {
                        assert(crate::chop::chop_wf(pas@[i as int].chop));
                    }
                    let chops = p.chop.check(funcs[j].entry);
                    if chops.len() > 0 {
                        let c2 = chops[0];
                        proof {
                            assert(c2 == crate::chop::chop_check_spec(p.chop, funcs@[j as int].entry)[0]);
                        }
                        let nk = call_sites.len();
                        for k in 0..nk
                            invariant
                                na == pas@.len(),
                                i < na,
                                j < nj,
                                p == pas@[i as int],
                                p.stack == 0,
                                nj == funcs@.len(),
                                nk == call_sites@.len(),
                                crate::schema::instrs_unique(instrs@),
                                forall|i3: int|
                                    0 <= i3 < pas@.len() ==> crate::chop::chop_wf(
                                        (#[trigger] pas@[i3]).chop,
                                    ),
                                0 <= m0 < instrs@.len(),
                                instrs@[m0 as int].bin == p.cur_bin,
                                instrs@[m0 as int].addr == p.cur_addr,
                                instrs@[m0 as int].is_ret,
                                funcs@[j as int].bin == p.cur_bin,
                                funcs@[j as int].addr == p.cur_addr,
                                crate::chop::chop_check_spec(p.chop, funcs@[j as int].entry).len() > 0,
                                c2 == crate::chop::chop_check_spec(p.chop, funcs@[j as int].entry)[0],
                                forall|i2: int, j2: int, k2: int, m3: int, m4: int|
                                    #![trigger pas@[i2], funcs@[j2], call_sites@[k2], instrs@[m3], instrs@[m4]]
                                    0 <= i2 < i && 0 <= j2 < funcs@.len() && 0 <= k2
                                        < call_sites@.len() && 0 <= m3 < instrs@.len() && 0 <= m4
                                        < instrs@.len() && pas@[i2].stack == 0 && funcs@[j2].bin
                                        == pas@[i2].cur_bin && funcs@[j2].addr == pas@[i2].cur_addr
                                        && call_sites@[k2].dst_bin == pas@[i2].cur_bin
                                        && call_sites@[k2].dst_addr == funcs@[j2].entry
                                        && instrs@[m3].bin == pas@[i2].cur_bin && instrs@[m3].addr
                                        == pas@[i2].cur_addr && instrs@[m3].is_ret
                                        && instrs@[m4].bin == call_sites@[k2].src_bin
                                        && instrs@[m4].addr == call_sites@[k2].src_addr
                                        && crate::chop::chop_check_spec(
                                        pas@[i2].chop,
                                        funcs@[j2].entry,
                                    ).len() > 0 ==> out@.contains(
                                        retno_concl(
                                            pas@[i2],
                                            call_sites@[k2],
                                            instrs@[m4].fall,
                                            crate::chop::chop_check_spec(
                                                pas@[i2].chop,
                                                funcs@[j2].entry,
                                            )[0],
                                        ),
                                    ),
                                forall|j2: int, k2: int, m4: int|
                                    #![trigger funcs@[j2], call_sites@[k2], instrs@[m4]]
                                    0 <= j2 < j && 0 <= k2 < call_sites@.len() && 0 <= m4
                                        < instrs@.len() && funcs@[j2].bin == p.cur_bin
                                        && funcs@[j2].addr == p.cur_addr && call_sites@[k2].dst_bin
                                        == p.cur_bin && call_sites@[k2].dst_addr
                                        == funcs@[j2].entry && instrs@[m4].bin
                                        == call_sites@[k2].src_bin && instrs@[m4].addr
                                        == call_sites@[k2].src_addr && crate::chop::chop_check_spec(
                                        p.chop,
                                        funcs@[j2].entry,
                                    ).len() > 0 ==> out@.contains(
                                        retno_concl(
                                            pas@[i as int],
                                            call_sites@[k2],
                                            instrs@[m4].fall,
                                            crate::chop::chop_check_spec(p.chop, funcs@[j2].entry)[0],
                                        ),
                                    ),
                                forall|k2: int, m4: int|
                                    #![trigger call_sites@[k2], instrs@[m4]]
                                    0 <= k2 < k && 0 <= m4 < instrs@.len()
                                        && call_sites@[k2].dst_bin == p.cur_bin
                                        && call_sites@[k2].dst_addr == funcs@[j as int].entry
                                        && instrs@[m4].bin == call_sites@[k2].src_bin
                                        && instrs@[m4].addr == call_sites@[k2].src_addr
                                        ==> out@.contains(
                                        retno_concl(pas@[i as int], call_sites@[k2], instrs@[m4].fall, c2),
                                    ),
                                forall|mm: int|
                                    0 <= mm < out@.len() ==> just_flow_ret_notarget(
                                        pas@,
                                        funcs@,
                                        call_sites@,
                                        instrs@,
                                        #[trigger] out@[mm],
                                    ),
                        {
                            if call_sites[k].dst_bin == p.cur_bin && call_sites[k].dst_addr
                                == funcs[j].entry {
                                match find_instr(instrs, call_sites[k].src_bin, call_sites[k].src_addr) {
                                    None => {
                                        proof {
                                            assert forall|m4: int|
                                                0 <= m4 < instrs@.len() implies !((
                                                #[trigger] instrs@[m4]).bin
                                                == call_sites@[k as int].src_bin && instrs@[m4].addr
                                                == call_sites@[k as int].src_addr) by {}
                                        }
                                    },
                                    Some(mc) => {
                                        let f = PathAlias {
                                            src_bin: p.src_bin,
                                            src_addr: p.src_addr,
                                            alias_set: p.alias_set,
                                            stack: 0,
                                            chop: c2,
                                            cur_bin: call_sites[k].src_bin,
                                            cur_addr: instrs[mc].fall,
                                            var: p.var,
                                            freed: p.freed,
                                        };
                                        let ghost pre = out@;
                                        out.push(f);
                                        proof {
                                            assert(out@.last() == f);
                                            assert(forall|q: int|
                                                0 <= q < pre.len() ==> out@[q] == pre[q]);
                                            assert(f == retno_concl(
                                                pas@[i as int],
                                                call_sites@[k as int],
                                                instrs@[mc as int].fall,
                                                c2,
                                            ));
                                            assert(just_flow_ret_notarget(
                                                pas@,
                                                funcs@,
                                                call_sites@,
                                                instrs@,
                                                f,
                                            )) by {
                                                assert((#[trigger] funcs@[j as int]).bin
                                                    == p.cur_bin);
                                                assert((#[trigger] instrs@[m0 as int]).is_ret);
                                                assert((#[trigger] instrs@[mc as int]).bin
                                                    == call_sites@[k as int].src_bin);
                                            }
                                            assert forall|mm: int|
                                                0 <= mm < out@.len() implies just_flow_ret_notarget(
                                                pas@,
                                                funcs@,
                                                call_sites@,
                                                instrs@,
                                                #[trigger] out@[mm],
                                            ) by {
                                                if mm < pre.len() {
                                                    assert(out@[mm] == pre[mm]);
                                                } else {
                                                    assert(out@[mm] == f);
                                                }
                                            }
                                            assert forall|i2: int, j2: int, k2: int, m3: int, m4: int|
                                                #![trigger pas@[i2], funcs@[j2], call_sites@[k2], instrs@[m3], instrs@[m4]]
                                                0 <= i2 < i && 0 <= j2 < funcs@.len() && 0 <= k2
                                                    < call_sites@.len() && 0 <= m3 < instrs@.len()
                                                    && 0 <= m4 < instrs@.len() && pas@[i2].stack
                                                    == 0 && funcs@[j2].bin == pas@[i2].cur_bin
                                                    && funcs@[j2].addr == pas@[i2].cur_addr
                                                    && call_sites@[k2].dst_bin == pas@[i2].cur_bin
                                                    && call_sites@[k2].dst_addr == funcs@[j2].entry
                                                    && instrs@[m3].bin == pas@[i2].cur_bin
                                                    && instrs@[m3].addr == pas@[i2].cur_addr
                                                    && instrs@[m3].is_ret && instrs@[m4].bin
                                                    == call_sites@[k2].src_bin && instrs@[m4].addr
                                                    == call_sites@[k2].src_addr
                                                    && crate::chop::chop_check_spec(
                                                    pas@[i2].chop,
                                                    funcs@[j2].entry,
                                                ).len() > 0 implies out@.contains(
                                                retno_concl(
                                                    pas@[i2],
                                                    call_sites@[k2],
                                                    instrs@[m4].fall,
                                                    crate::chop::chop_check_spec(
                                                        pas@[i2].chop,
                                                        funcs@[j2].entry,
                                                    )[0],
                                                ),
                                            ) by {
                                                let g = retno_concl(
                                                    pas@[i2],
                                                    call_sites@[k2],
                                                    instrs@[m4].fall,
                                                    crate::chop::chop_check_spec(
                                                        pas@[i2].chop,
                                                        funcs@[j2].entry,
                                                    )[0],
                                                );
                                                let q = choose|q: int|
                                                    0 <= q < pre.len() && pre[q] == g;
                                                assert(out@[q] == g);
                                            }
                                            assert forall|j2: int, k2: int, m4: int|
                                                #![trigger funcs@[j2], call_sites@[k2], instrs@[m4]]
                                                0 <= j2 < j && 0 <= k2 < call_sites@.len() && 0
                                                    <= m4 < instrs@.len() && funcs@[j2].bin
                                                    == p.cur_bin && funcs@[j2].addr == p.cur_addr
                                                    && call_sites@[k2].dst_bin == p.cur_bin
                                                    && call_sites@[k2].dst_addr == funcs@[j2].entry
                                                    && instrs@[m4].bin == call_sites@[k2].src_bin
                                                    && instrs@[m4].addr == call_sites@[k2].src_addr
                                                    && crate::chop::chop_check_spec(
                                                    p.chop,
                                                    funcs@[j2].entry,
                                                ).len() > 0 implies out@.contains(
                                                retno_concl(
                                                    pas@[i as int],
                                                    call_sites@[k2],
                                                    instrs@[m4].fall,
                                                    crate::chop::chop_check_spec(
                                                        p.chop,
                                                        funcs@[j2].entry,
                                                    )[0],
                                                ),
                                            ) by {
                                                let g = retno_concl(
                                                    pas@[i as int],
                                                    call_sites@[k2],
                                                    instrs@[m4].fall,
                                                    crate::chop::chop_check_spec(
                                                        p.chop,
                                                        funcs@[j2].entry,
                                                    )[0],
                                                );
                                                let q = choose|q: int|
                                                    0 <= q < pre.len() && pre[q] == g;
                                                assert(out@[q] == g);
                                            }
                                            assert forall|k2: int, m4: int|
                                                #![trigger call_sites@[k2], instrs@[m4]]
                                                0 <= k2 < k + 1 && 0 <= m4 < instrs@.len()
                                                    && call_sites@[k2].dst_bin == p.cur_bin
                                                    && call_sites@[k2].dst_addr
                                                    == funcs@[j as int].entry && instrs@[m4].bin
                                                    == call_sites@[k2].src_bin && instrs@[m4].addr
                                                    == call_sites@[k2].src_addr implies out@.contains(
                                                retno_concl(
                                                    pas@[i as int],
                                                    call_sites@[k2],
                                                    instrs@[m4].fall,
                                                    c2,
                                                ),
                                            ) by {
                                                let g = retno_concl(
                                                    pas@[i as int],
                                                    call_sites@[k2],
                                                    instrs@[m4].fall,
                                                    c2,
                                                );
                                                if k2 < k {
                                                    let q = choose|q: int|
                                                        0 <= q < pre.len() && pre[q] == g;
                                                    assert(out@[q] == g);
                                                } else {
                                                    assert(m4 == mc);
                                                    assert(out@.last() == g);
                                                }
                                            }
                                        }
                                    },
                                }
                            }
                        }
                        proof {
                            assert forall|j2: int, k2: int, m4: int|
                                #![trigger funcs@[j2], call_sites@[k2], instrs@[m4]]
                                0 <= j2 < j + 1 && 0 <= k2 < call_sites@.len() && 0 <= m4
                                    < instrs@.len() && funcs@[j2].bin == p.cur_bin
                                    && funcs@[j2].addr == p.cur_addr && call_sites@[k2].dst_bin
                                    == p.cur_bin && call_sites@[k2].dst_addr == funcs@[j2].entry
                                    && instrs@[m4].bin == call_sites@[k2].src_bin
                                    && instrs@[m4].addr == call_sites@[k2].src_addr
                                    && crate::chop::chop_check_spec(p.chop, funcs@[j2].entry).len()
                                    > 0 implies out@.contains(
                                retno_concl(
                                    pas@[i as int],
                                    call_sites@[k2],
                                    instrs@[m4].fall,
                                    crate::chop::chop_check_spec(p.chop, funcs@[j2].entry)[0],
                                ),
                            ) by {
                                if j2 == j {
                                    assert(out@.contains(
                                        retno_concl(pas@[i as int], call_sites@[k2], instrs@[m4].fall, c2),
                                    ));
                                }
                            }
                        }
                    } else {
                        proof {
                            assert forall|j2: int, k2: int, m4: int|
                                #![trigger funcs@[j2], call_sites@[k2], instrs@[m4]]
                                0 <= j2 < j + 1 && 0 <= k2 < call_sites@.len() && 0 <= m4
                                    < instrs@.len() && funcs@[j2].bin == p.cur_bin
                                    && funcs@[j2].addr == p.cur_addr && call_sites@[k2].dst_bin
                                    == p.cur_bin && call_sites@[k2].dst_addr == funcs@[j2].entry
                                    && instrs@[m4].bin == call_sites@[k2].src_bin
                                    && instrs@[m4].addr == call_sites@[k2].src_addr
                                    && crate::chop::chop_check_spec(p.chop, funcs@[j2].entry).len()
                                    > 0 implies out@.contains(
                                retno_concl(
                                    pas@[i as int],
                                    call_sites@[k2],
                                    instrs@[m4].fall,
                                    crate::chop::chop_check_spec(p.chop, funcs@[j2].entry)[0],
                                ),
                            ) by {
                                if j2 == j {
                                    assert(crate::chop::chop_check_spec(
                                        p.chop,
                                        funcs@[j as int].entry,
                                    ).len() == 0);
                                }
                            }
                        }
                    }
                }
            }
            proof {
                assert forall|j2: int, k2: int, m3: int, m4: int|
                    #![trigger funcs@[j2], call_sites@[k2], instrs@[m3], instrs@[m4]]
                    0 <= j2 < funcs@.len() && 0 <= k2 < call_sites@.len() && 0 <= m3
                        < instrs@.len() && 0 <= m4 < instrs@.len() && funcs@[j2].bin
                        == pas@[i as int].cur_bin && funcs@[j2].addr == pas@[i as int].cur_addr
                        && call_sites@[k2].dst_bin == pas@[i as int].cur_bin
                        && call_sites@[k2].dst_addr == funcs@[j2].entry && instrs@[m3].bin
                        == pas@[i as int].cur_bin && instrs@[m3].addr == pas@[i as int].cur_addr
                        && instrs@[m3].is_ret && instrs@[m4].bin == call_sites@[k2].src_bin
                        && instrs@[m4].addr == call_sites@[k2].src_addr
                        && crate::chop::chop_check_spec(
                        pas@[i as int].chop,
                        funcs@[j2].entry,
                    ).len() > 0 implies out@.contains(
                    retno_concl(
                        pas@[i as int],
                        call_sites@[k2],
                        instrs@[m4].fall,
                        crate::chop::chop_check_spec(pas@[i as int].chop, funcs@[j2].entry)[0],
                    ),
                ) by {}
            }
        }
    }
    out
}

/// A call into an import stub whose routine is defined in a loaded
/// binary resolves to a cross-binary call edge at that routine's entry.
pub open spec fn rule_call_site_dyn(
    link_pads: Seq<LinkPad>,
    succs: Seq<SuccFact>,
    entries: Seq<Entry>,
    out_rel: Seq<CallSite>,
) -> bool {
    forall|i: int, j: int, k: int|
        #![trigger link_pads[i], succs[j], entries[k]]
        0 <= i < link_pads.len() && 0 <= j < succs.len() && 0 <= k < entries.len() && succs[j].bin
            == link_pads[i].bin && succs[j].sink == link_pads[i].addr && succs[j].is_call
            && entries[k].sym@ == link_pads[i].name@ ==> out_rel.contains(
            CallSite {
                src_bin: link_pads[i].bin,
                src_addr: succs[j].src,
                dst_bin: entries[k].bin,
                dst_addr: entries[k].start,
            },
        )
}

/// A fact justified by `rule_call_site_dyn`.
pub open spec fn just_call_site_dyn(
    link_pads: Seq<LinkPad>,
    succs: Seq<SuccFact>,
    entries: Seq<Entry>,
    f: CallSite,
) -> bool {
    exists|i: int, j: int, k: int|
        #![trigger link_pads[i], succs[j], entries[k]]
        0 <= i < link_pads.len() && 0 <= j < succs.len() && 0 <= k < entries.len() && succs[j].bin
            == link_pads[i].bin && succs[j].sink == link_pads[i].addr && succs[j].is_call
            && entries[k].sym@ == link_pads[i].name@ && f == (CallSite {
            src_bin: link_pads[i].bin,
            src_addr: succs[j].src,
            dst_bin: entries[k].bin,
            dst_addr: entries[k].start,
        })
}

/// Derives the conclusions of `rule_call_site_dyn`.
pub fn derive_call_site_dyn(
    link_pads: &Vec<LinkPad>,
    succs: &Vec<SuccFact>,
    entries: &Vec<Entry>,
) -> (out: Vec<CallSite>)
    ensures
        rule_call_site_dyn(link_pads@, succs@, entries@, out@),
        forall|m: int|
            0 <= m < out@.len() ==> just_call_site_dyn(
                link_pads@,
                succs@,
                entries@,
                #[trigger] out@[m],
            ),
{
    let mut out: Vec<CallSite> = Vec::new();
    let na = link_pads.len();
    for i in 0..na
        invariant
            na == link_pads@.len(),
            forall|i2: int, j2: int, k2: int|
                #![trigger link_pads@[i2], succs@[j2], entries@[k2]]
                0 <= i2 < i && 0 <= j2 < succs@.len() && 0 <= k2 < entries@.len() && succs@[j2].bin
                    == link_pads@[i2].bin && succs@[j2].sink == link_pads@[i2].addr
                    && succs@[j2].is_call && entries@[k2].sym@ == link_pads@[i2].name@
                    ==> out@.contains(
                    CallSite {
                        src_bin: link_pads@[i2].bin,
                        src_addr: succs@[j2].src,
                        dst_bin: entries@[k2].bin,
                        dst_addr: entries@[k2].start,
                    },
                ),
            forall|m: int|
                0 <= m < out@.len() ==> just_call_site_dyn(
                    link_pads@,
                    succs@,
                    entries@,
                    #[trigger] out@[m],
                ),
    {
        let nb = succs.len();
        for j in 0..nb
            invariant
                na == link_pads@.len(),
                i < na,
                nb == succs@.len(),
                forall|i2: int, j2: int, k2: int|
                    #![trigger link_pads@[i2], succs@[j2], entries@[k2]]
                    0 <= i2 < i && 0 <= j2 < succs@.len() && 0 <= k2 < entries@.len()
                        && succs@[j2].bin == link_pads@[i2].bin && succs@[j2].sink
                        == link_pads@[i2].addr && succs@[j2].is_call && entries@[k2].sym@
                        == link_pads@[i2].name@ ==> out@.contains(
                        CallSite {
                            src_bin: link_pads@[i2].bin,
                            src_addr: succs@[j2].src,
                            dst_bin: entries@[k2].bin,
                            dst_addr: entries@[k2].start,
                        },
                    ),
                forall|j2: int, k2: int|
                    #![trigger succs@[j2], entries@[k2]]
                    0 <= j2 < j && 0 <= k2 < entries@.len() && succs@[j2].bin
                        == link_pads@[i as int].bin && succs@[j2].sink == link_pads@[i as int].addr
                        && succs@[j2].is_call && entries@[k2].sym@ == link_pads@[i as int].name@
                        ==> out@.contains(
                        CallSite {
                            src_bin: link_pads@[i as int].bin,
                            src_addr: succs@[j2].src,
                            dst_bin: entries@[k2].bin,
                            dst_addr: entries@[k2].start,
                        },
                    ),
                forall|m: int|
                    0 <= m < out@.len() ==> just_call_site_dyn(
                        link_pads@,
                        succs@,
                        entries@,
                        #[trigger] out@[m],
                    ),
        {
            if succs[j].bin == link_pads[i].bin && succs[j].sink == link_pads[i].addr
                && succs[j].is_call {
                let nc = entries.len();
                for k in 0..nc
                    invariant
                        na == link_pads@.len(),
                        i < na,
                        j < nb,
                        nb == succs@.len(),
                        nc == entries@.len(),
                        succs@[j as int].bin == link_pads@[i as int].bin,
                        succs@[j as int].sink == link_pads@[i as int].addr,
                        succs@[j as int].is_call,
                        forall|i2: int, j2: int, k2: int|
                            #![trigger link_pads@[i2], succs@[j2], entries@[k2]]
                            0 <= i2 < i && 0 <= j2 < succs@.len() && 0 <= k2 < entries@.len()
                                && succs@[j2].bin == link_pads@[i2].bin && succs@[j2].sink
                                == link_pads@[i2].addr && succs@[j2].is_call && entries@[k2].sym@
                                == link_pads@[i2].name@ ==> out@.contains(
                                CallSite {
                                    src_bin: link_pads@[i2].bin,
                                    src_addr: succs@[j2].src,
                                    dst_bin: entries@[k2].bin,
                                    dst_addr: entries@[k2].start,
                                },
                            ),
                        forall|j2: int, k2: int|
                            #![trigger succs@[j2], entries@[k2]]
                            0 <= j2 < j && 0 <= k2 < entries@.len() && succs@[j2].bin
                                == link_pads@[i as int].bin && succs@[j2].sink
                                == link_pads@[i as int].addr && succs@[j2].is_call
                                && entries@[k2].sym@ == link_pads@[i as int].name@
                                ==> out@.contains(
                                CallSite {
                                    src_bin: link_pads@[i as int].bin,
                                    src_addr: succs@[j2].src,
                                    dst_bin: entries@[k2].bin,
                                    dst_addr: entries@[k2].start,
                                },
                            ),
                        forall|k2: int|
                            0 <= k2 < k && (#[trigger] entries@[k2]).sym@
                                == link_pads@[i as int].name@ ==> out@.contains(
                                CallSite {
                                    src_bin: link_pads@[i as int].bin,
                                    src_addr: succs@[j as int].src,
                                    dst_bin: entries@[k2].bin,
                                    dst_addr: entries@[k2].start,
                                },
                            ),
                        forall|m: int|
                            0 <= m < out@.len() ==> just_call_site_dyn(
                                link_pads@,
                                succs@,
                                entries@,
                                #[trigger] out@[m],
                            ),
                {
                    if entries[k].sym == link_pads[i].name {
                        let f = CallSite {
                            src_bin: link_pads[i].bin,
                            src_addr: succs[j].src,
                            dst_bin: entries[k].bin,
                            dst_addr: entries[k].start,
                        };
                        let ghost pre = out@;
                        out.push(f);
                        proof {
                            assert(out@.last() == f);
                            assert(forall|q: int| 0 <= q < pre.len() ==> out@[q] == pre[q]);
                            assert(just_call_site_dyn(link_pads@, succs@, entries@, f)) by {
                                assert((#[trigger] entries@[k as int]).sym@
                                    == link_pads@[i as int].name@);
                            }
                            assert forall|m2: int|
                                0 <= m2 < out@.len() implies just_call_site_dyn(
                                link_pads@,
                                succs@,
                                entries@,
                                #[trigger] out@[m2],
                            ) by {
                                if m2 < pre.len() {
                                    assert(out@[m2] == pre[m2]);
                                } else {
                                    assert(out@[m2] == f);
                                }
                            }
                            assert forall|i2: int, j2: int, k2: int|
                                #![trigger link_pads@[i2], succs@[j2], entries@[k2]]
                                0 <= i2 < i && 0 <= j2 < succs@.len() && 0 <= k2 < entries@.len()
                                    && succs@[j2].bin == link_pads@[i2].bin && succs@[j2].sink
                                    == link_pads@[i2].addr && succs@[j2].is_call
                                    && entries@[k2].sym@ == link_pads@[i2].name@ implies out@.contains(
                                CallSite {
                                    src_bin: link_pads@[i2].bin,
                                    src_addr: succs@[j2].src,
                                    dst_bin: entries@[k2].bin,
                                    dst_addr: entries@[k2].start,
                                },
                            ) by {
                                let g = CallSite {
                                    src_bin: link_pads@[i2].bin,
                                    src_addr: succs@[j2].src,
                                    dst_bin: entries@[k2].bin,
                                    dst_addr: entries@[k2].start,
                                };
                                let q = choose|q: int| 0 <= q < pre.len() && pre[q] == g;
                                assert(out@[q] == g);
                            }
                            assert forall|j2: int, k2: int|
                                #![trigger succs@[j2], entries@[k2]]
                                0 <= j2 < j && 0 <= k2 < entries@.len() && succs@[j2].bin
                                    == link_pads@[i as int].bin && succs@[j2].sink
                                    == link_pads@[i as int].addr && succs@[j2].is_call
                                    && entries@[k2].sym@ == link_pads@[i as int].name@ implies out@.contains(
                                CallSite {
                                    src_bin: link_pads@[i as int].bin,
                                    src_addr: succs@[j2].src,
                                    dst_bin: entries@[k2].bin,
                                    dst_addr: entries@[k2].start,
                                },
                            ) by {
                                let g = CallSite {
                                    src_bin: link_pads@[i as int].bin,
                                    src_addr: succs@[j2].src,
                                    dst_bin: entries@[k2].bin,
                                    dst_addr: entries@[k2].start,
                                };
                                let q = choose|q: int| 0 <= q < pre.len() && pre[q] == g;
                                assert(out@[q] == g);
                            }
                            assert forall|k2: int|
                                0 <= k2 < k + 1 && (#[trigger] entries@[k2]).sym@
                                    == link_pads@[i as int].name@ implies out@.contains(
                                CallSite {
                                    src_bin: link_pads@[i as int].bin,
                                    src_addr: succs@[j as int].src,
                                    dst_bin: entries@[k2].bin,
                                    dst_addr: entries@[k2].start,
                                },
                            ) by {
                                let g = CallSite {
                                    src_bin: link_pads@[i as int].bin,
                                    src_addr: succs@[j as int].src,
                                    dst_bin: entries@[k2].bin,
                                    dst_addr: entries@[k2].start,
                                };
                                if k2 < k {
                                    let q = choose|q: int| 0 <= q < pre.len() && pre[q] == g;
                                    assert(out@[q] == g);
                                } else {
                                    assert(out@.last() == g);
                                }
                            }
                        }
                    }
                }
                proof {
                    assert forall|j2: int, k2: int|
                        #![trigger succs@[j2], entries@[k2]]
                        0 <= j2 < j + 1 && 0 <= k2 < entries@.len() && succs@[j2].bin
                            == link_pads@[i as int].bin && succs@[j2].sink
                            == link_pads@[i as int].addr && succs@[j2].is_call && entries@[k2].sym@
                            == link_pads@[i as int].name@ implies out@.contains(
                        CallSite {
                            src_bin: link_pads@[i as int].bin,
                            src_addr: succs@[j2].src,
                            dst_bin: entries@[k2].bin,
                            dst_addr: entries@[k2].start,
                        },
                    ) by {
                        if j2 == j {
                            assert(out@.contains(
                                CallSite {
                                    src_bin: link_pads@[i as int].bin,
                                    src_addr: succs@[j as int].src,
                                    dst_bin: entries@[k2].bin,
                                    dst_addr: entries@[k2].start,
                                },
                            ));
                        }
                    }
                }
            }
        }
    }
    out
}

/// The state continued at a successor with a transferred location.
pub open spec fn tr_prop_concl(p: PathAliasTrace, sink: u64, var2: HVar) -> PathAliasTrace {
    PathAliasTrace {
        src_bin: p.src_bin,
        src_addr: p.src_addr,
        alias_set: p.alias_set,
        stack: p.stack,
        cur_bin: p.cur_bin,
        cur_addr: sink,
        var: var2,
        freed: p.freed,
        len: (p.len + 1) as u64,
    }
}

/// A state at an instruction with a non-call successor flows there,
/// carrying its context and chop, with the instruction's taint transfer
/// applied to the tracked location.
pub open spec fn rule_trace_prop(
    trs: Seq<PathAliasTrace>,
    succs: Seq<SuccFact>,
    instrs: Seq<Instr>,
    max: u64,
    out_rel: Seq<PathAliasTrace>,
) -> bool {
    forall|i: int, j: int, k: int, v: int|
        #![trigger trs[i], succs[j], xfer_of(instrs[k], trs[i].var)[v]]
        0 <= i < trs.len() && trs[i].len < max && 0 <= j < succs.len() && 0 <= k < instrs.len() && succs[j].bin
            == trs[i].cur_bin && succs[j].src == trs[i].cur_addr && !succs[j].is_call
            && instrs[k].bin == trs[i].cur_bin && instrs[k].addr == trs[i].cur_addr && 0 <= v
            < xfer_of(instrs[k], trs[i].var).len() ==> out_rel.contains(
            tr_prop_concl(trs[i], succs[j].sink, xfer_of(instrs[k], trs[i].var)[v]),
        )
}

/// A fact justified by `rule_trace_prop`.
pub open spec fn just_trace_prop(
    trs: Seq<PathAliasTrace>,
    succs: Seq<SuccFact>,
    instrs: Seq<Instr>,
    max: u64,
    f: PathAliasTrace,
) -> bool {
    exists|i: int, j: int, k: int, v: int|
        #![trigger trs[i], succs[j], xfer_of(instrs[k], trs[i].var)[v]]
        0 <= i < trs.len() && trs[i].len < max && 0 <= j < succs.len() && 0 <= k < instrs.len() && succs[j].bin
            == trs[i].cur_bin && succs[j].src == trs[i].cur_addr && !succs[j].is_call
            && instrs[k].bin == trs[i].cur_bin && instrs[k].addr == trs[i].cur_addr && 0 <= v
            < xfer_of(instrs[k], trs[i].var).len() && f == tr_prop_concl(
            trs[i],
            succs[j].sink,
            xfer_of(instrs[k], trs[i].var)[v],
        )
}

/// Derives the conclusions of `rule_trace_prop`.
pub fn derive_trace_prop(trs: &Vec<PathAliasTrace>, succs: &Vec<SuccFact>, instrs: &Vec<Instr>, max: u64) -> (out:
    Vec<PathAliasTrace>)
    requires
        crate::schema::instrs_unique(instrs@),
    ensures
        rule_trace_prop(trs@, succs@, instrs@, max, out@),
        forall|m: int|
            0 <= m < out@.len() ==> just_trace_prop(trs@, succs@, instrs@, max, #[trigger] out@[m]),
{
    let mut out: Vec<PathAliasTrace> = Vec::new();
    let na = trs.len();
    for i in 0..na
        invariant
            na == trs@.len(),
            crate::schema::instrs_unique(instrs@),
            forall|i2: int, j2: int, k2: int, v2: int|
                #![trigger trs@[i2], succs@[j2], xfer_of(instrs@[k2], trs@[i2].var)[v2]]
                0 <= i2 < i && trs@[i2].len < max && 0 <= j2 < succs@.len() && 0 <= k2 < instrs@.len() && succs@[j2].bin
                    == trs@[i2].cur_bin && succs@[j2].src == trs@[i2].cur_addr
                    && !succs@[j2].is_call && instrs@[k2].bin == trs@[i2].cur_bin
                    && instrs@[k2].addr == trs@[i2].cur_addr && 0 <= v2 < xfer_of(
                    instrs@[k2],
                    trs@[i2].var,
                ).len() ==> out@.contains(
                    tr_prop_concl(trs@[i2], succs@[j2].sink, xfer_of(instrs@[k2], trs@[i2].var)[v2]),
                ),
            forall|m: int|
                0 <= m < out@.len() ==> just_trace_prop(trs@, succs@, instrs@, max, #[trigger] out@[m]),
    {
        let p = trs[i];
        if p.len < max {
        match find_instr(instrs, p.cur_bin, p.cur_addr) {
            None => {
                proof {
                    assert forall|j2: int, k2: int, v2: int|
                        #![trigger succs@[j2], xfer_of(instrs@[k2], trs@[i as int].var)[v2]]
                        !(0 <= j2 < succs@.len() && 0 <= k2 < instrs@.len()
                            && succs@[j2].bin == trs@[i as int].cur_bin && succs@[j2].src
                            == trs@[i as int].cur_addr && !succs@[j2].is_call && instrs@[k2].bin
                            == trs@[i as int].cur_bin && instrs@[k2].addr
                            == trs@[i as int].cur_addr && 0 <= v2 < xfer_of(
                            instrs@[k2],
                            trs@[i as int].var,
                        ).len()) by {
                        if 0 <= k2 < instrs@.len() {
                            assert(!((#[trigger] instrs@[k2]).bin == p.cur_bin && instrs@[k2].addr
                                == p.cur_addr));
                        }
                    }
                }
            },
            Some(k0) => {
                let vars = crate::analyses::xfer_taint(&instrs[k0].sema, &p.var);
                proof {
                    assert(vars@ == xfer_of(instrs@[k0 as int], trs@[i as int].var));
                }
                let nb = succs.len();
                for j in 0..nb
                    invariant
                        na == trs@.len(),
                        i < na,
                        p == trs@[i as int],
                        p.len < max,
                        nb == succs@.len(),
                        crate::schema::instrs_unique(instrs@),
                        0 <= k0 < instrs@.len(),
                        instrs@[k0 as int].bin == p.cur_bin,
                        instrs@[k0 as int].addr == p.cur_addr,
                        vars@ == xfer_of(instrs@[k0 as int], trs@[i as int].var),
                        forall|i2: int, j2: int, k2: int, v2: int|
                            #![trigger trs@[i2], succs@[j2], xfer_of(instrs@[k2], trs@[i2].var)[v2]]
                            0 <= i2 < i && trs@[i2].len < max && 0 <= j2 < succs@.len() && 0 <= k2 < instrs@.len()
                                && succs@[j2].bin == trs@[i2].cur_bin && succs@[j2].src
                                == trs@[i2].cur_addr && !succs@[j2].is_call && instrs@[k2].bin
                                == trs@[i2].cur_bin && instrs@[k2].addr == trs@[i2].cur_addr && 0
                                <= v2 < xfer_of(instrs@[k2], trs@[i2].var).len() ==> out@.contains(
                                tr_prop_concl(
                                    trs@[i2],
                                    succs@[j2].sink,
                                    xfer_of(instrs@[k2], trs@[i2].var)[v2],
                                ),
                            ),
                        forall|j2: int, v2: int|
                            #![trigger succs@[j2], vars@[v2]]
                            0 <= j2 < j && succs@[j2].bin == p.cur_bin && succs@[j2].src
                                == p.cur_addr && !succs@[j2].is_call && 0 <= v2 < vars@.len()
                                ==> out@.contains(tr_prop_concl(trs@[i as int], succs@[j2].sink, vars@[v2])),
                        forall|m: int|
                            0 <= m < out@.len() ==> just_trace_prop(
                                trs@,
                                succs@,
                                instrs@,
                                max,
                                #[trigger] out@[m],
                            ),
                {
                    if succs[j].bin == p.cur_bin && succs[j].src == p.cur_addr && !succs[j].is_call {
                        let nv = vars.len();
                        for v in 0..nv
                            invariant
                                na == trs@.len(),
                                i < na,
                                j < nb,
                                p == trs@[i as int],
                                p.len < max,
                                nb == succs@.len(),
                                nv == vars@.len(),
                                crate::schema::instrs_unique(instrs@),
                                0 <= k0 < instrs@.len(),
                                instrs@[k0 as int].bin == p.cur_bin,
                                instrs@[k0 as int].addr == p.cur_addr,
                                succs@[j as int].bin == p.cur_bin,
                                succs@[j as int].src == p.cur_addr,
                                !succs@[j as int].is_call,
                                vars@ == xfer_of(instrs@[k0 as int], trs@[i as int].var),
                                forall|i2: int, j2: int, k2: int, v2: int|
                                    #![trigger trs@[i2], succs@[j2], xfer_of(instrs@[k2], trs@[i2].var)[v2]]
                                    0 <= i2 < i && trs@[i2].len < max && 0 <= j2 < succs@.len() && 0 <= k2 < instrs@.len()
                                        && succs@[j2].bin == trs@[i2].cur_bin && succs@[j2].src
                                        == trs@[i2].cur_addr && !succs@[j2].is_call
                                        && instrs@[k2].bin == trs@[i2].cur_bin && instrs@[k2].addr
                                        == trs@[i2].cur_addr && 0 <= v2 < xfer_of(
                                        instrs@[k2],
                                        trs@[i2].var,
                                    ).len() ==> out@.contains(
                                        tr_prop_concl(
                                            trs@[i2],
                                            succs@[j2].sink,
                                            xfer_of(instrs@[k2], trs@[i2].var)[v2],
                                        ),
                                    ),
                                forall|j2: int, v2: int|
                                    #![trigger succs@[j2], vars@[v2]]
                                    0 <= j2 < j && succs@[j2].bin == p.cur_bin && succs@[j2].src
                                        == p.cur_addr && !succs@[j2].is_call && 0 <= v2
                                        < vars@.len() ==> out@.contains(
                                        tr_prop_concl(trs@[i as int], succs@[j2].sink, vars@[v2]),
                                    ),
                                forall|v2: int|
                                    0 <= v2 < v ==> out@.contains(
                                        tr_prop_concl(
                                            trs@[i as int],
                                            succs@[j as int].sink,
                                            #[trigger] vars@[v2],
                                        ),
                                    ),
                                forall|m: int|
                                    0 <= m < out@.len() ==> just_trace_prop(
                                        trs@,
                                        succs@,
                                        instrs@,
                                        max,
                                        #[trigger] out@[m],
                                    ),
                        {
                            let f = PathAliasTrace {
                                src_bin: p.src_bin,
                                src_addr: p.src_addr,
                                alias_set: p.alias_set,
                                stack: p.stack,
                                cur_bin: p.cur_bin,
                                cur_addr: succs[j].sink,
                                var: vars[v],
                                freed: p.freed,
                                len: p.len + 1,
                            };
                            let ghost pre = out@;
                            out.push(f);
                            proof {
                                assert(out@.last() == f);
                                assert(forall|q: int| 0 <= q < pre.len() ==> out@[q] == pre[q]);
                                assert(f == tr_prop_concl(trs@[i as int], succs@[j as int].sink, vars@[v as int]));
                                assert(just_trace_prop(trs@, succs@, instrs@, max, f)) by {
                                    assert(xfer_of(instrs@[k0 as int], trs@[i as int].var)[v as int]
                                        == vars@[v as int]);
                                }
                                assert forall|m2: int|
                                    0 <= m2 < out@.len() implies just_trace_prop(
                                    trs@,
                                    succs@,
                                    instrs@,
                                    max,
                                    #[trigger] out@[m2],
                                ) by {
                                    if m2 < pre.len() {
                                        assert(out@[m2] == pre[m2]);
                                    } else {
                                        assert(out@[m2] == f);
                                    }
                                }
                                assert forall|i2: int, j2: int, k2: int, v2: int|
                                    #![trigger trs@[i2], succs@[j2], xfer_of(instrs@[k2], trs@[i2].var)[v2]]
                                    0 <= i2 < i && trs@[i2].len < max && 0 <= j2 < succs@.len() && 0 <= k2 < instrs@.len()
                                        && succs@[j2].bin == trs@[i2].cur_bin && succs@[j2].src
                                        == trs@[i2].cur_addr && !succs@[j2].is_call
                                        && instrs@[k2].bin == trs@[i2].cur_bin && instrs@[k2].addr
                                        == trs@[i2].cur_addr && 0 <= v2 < xfer_of(
                                        instrs@[k2],
                                        trs@[i2].var,
                                    ).len() implies out@.contains(
                                    tr_prop_concl(
                                        trs@[i2],
                                        succs@[j2].sink,
                                        xfer_of(instrs@[k2], trs@[i2].var)[v2],
                                    ),
                                ) by {
                                    let g = tr_prop_concl(
                                        trs@[i2],
                                        succs@[j2].sink,
                                        xfer_of(instrs@[k2], trs@[i2].var)[v2],
                                    );
                                    let q = choose|q: int| 0 <= q < pre.len() && pre[q] == g;
                                    assert(out@[q] == g);
                                }
                                assert forall|j2: int, v2: int|
                                    #![trigger succs@[j2], vars@[v2]]
                                    0 <= j2 < j && succs@[j2].bin == p.cur_bin && succs@[j2].src
                                        == p.cur_addr && !succs@[j2].is_call && 0 <= v2
                                        < vars@.len() implies out@.contains(
                                    tr_prop_concl(trs@[i as int], succs@[j2].sink, vars@[v2]),
                                ) by {
                                    let g = tr_prop_concl(trs@[i as int], succs@[j2].sink, vars@[v2]);
                                    let q = choose|q: int| 0 <= q < pre.len() && pre[q] == g;
                                    assert(out@[q] == g);
                                }
                                assert forall|v2: int|
                                    0 <= v2 < v + 1 implies out@.contains(
                                    tr_prop_concl(
                                        trs@[i as int],
                                        succs@[j as int].sink,
                                        #[trigger] vars@[v2],
                                    ),
                                ) by {
                                    let g = tr_prop_concl(trs@[i as int], succs@[j as int].sink, vars@[v2]);
                                    if v2 < v {
                                        let q = choose|q: int| 0 <= q < pre.len() && pre[q] == g;
                                        assert(out@[q] == g);
                                    } else {
                                        assert(out@.last() == g);
                                    }
                                }
                            }
                        }
                        proof {
                            assert forall|j2: int, v2: int|
                                #![trigger succs@[j2], vars@[v2]]
                                0 <= j2 < j + 1 && succs@[j2].bin == p.cur_bin && succs@[j2].src
                                    == p.cur_addr && !succs@[j2].is_call && 0 <= v2 < vars@.len()
                                    implies out@.contains(
                                tr_prop_concl(trs@[i as int], succs@[j2].sink, vars@[v2]),
                            ) by {
                                if j2 == j {
                                    assert(out@.contains(
                                        tr_prop_concl(trs@[i as int], succs@[j as int].sink, vars@[v2]),
                                    ));
                                }
                            }
                        }
                    }
                }
                proof {
                    assert forall|j2: int, k2: int, v2: int|
                        #![trigger succs@[j2], xfer_of(instrs@[k2], trs@[i as int].var)[v2]]
                        0 <= j2 < succs@.len() && 0 <= k2 < instrs@.len() && succs@[j2].bin
                            == trs@[i as int].cur_bin && succs@[j2].src == trs@[i as int].cur_addr
                            && !succs@[j2].is_call && instrs@[k2].bin == trs@[i as int].cur_bin
                            && instrs@[k2].addr == trs@[i as int].cur_addr && 0 <= v2 < xfer_of(
                            instrs@[k2],
                            trs@[i as int].var,
                        ).len() implies out@.contains(
                        tr_prop_concl(
                            trs@[i as int],
                            succs@[j2].sink,
                            xfer_of(instrs@[k2], trs@[i as int].var)[v2],
                        ),
                    ) by {
                        assert(k2 == k0);
                    }
                }
            },
        }
        } else {
            proof {
                assert(!(trs@[i as int].len < max));
            }
        }
    }
    out
}


/// A second live state at the same site, same allocation and same
/// context, holding the argument register: what the free call is about to
/// consume may alias the tracked pointer.
pub open spec fn tr_companion(trs: Seq<PathAliasTrace>, p: PathAliasTrace) -> bool {
    exists|i2: int|
        0 <= i2 < trs.len() && (#[trigger] trs[i2]).src_bin == p.src_bin && trs[i2].src_addr
            == p.src_addr && trs[i2].alias_set == p.alias_set && trs[i2].stack == p.stack
            && trs[i2].cur_bin == p.cur_bin && trs[i2].cur_addr
            == p.cur_addr && trs[i2].len == p.len && trs[i2].var == crate::var::spec_reg(crate::var::REG_ARG0)
}

/// Executable form of `tr_companion`.
pub fn has_tr_companion(trs: &Vec<PathAliasTrace>, p: &PathAliasTrace) -> (r: bool)
    ensures
        r == tr_companion(trs@, *p),
{
    let arg0 = crate::var::get_arg0();
    let n = trs.len();
    for i in 0..n
        invariant
            n == trs@.len(),
            arg0 == crate::var::spec_reg(crate::var::REG_ARG0),
            forall|i2: int|
                0 <= i2 < i ==> !((#[trigger] trs@[i2]).src_bin == p.src_bin && trs@[i2].src_addr
                    == p.src_addr && trs@[i2].alias_set == p.alias_set && trs@[i2].stack == p.stack
                    && trs@[i2].cur_bin == p.cur_bin && trs@[i2].cur_addr
                    == p.cur_addr && trs@[i2].len == p.len && trs@[i2].var == crate::var::spec_reg(crate::var::REG_ARG0)),
    {
        if trs[i].src_bin == p.src_bin && trs[i].src_addr == p.src_addr && trs[i].alias_set
            == p.alias_set && trs[i].stack == p.stack && trs[i].cur_bin
            == p.cur_bin && trs[i].cur_addr == p.cur_addr && trs[i].len == p.len && trs[i].var == arg0 {
            proof {
                assert((#[trigger] trs@[i as int]).src_bin == p.src_bin);
            }
            return true;
        }
    }
    false
}

/// The state after a free: same place as the free's fallthrough, same
/// tracked location, marked freed.
pub open spec fn tr_free_concl(p: PathAliasTrace, fall: u64) -> PathAliasTrace {
    PathAliasTrace {
        src_bin: p.src_bin,
        src_addr: p.src_addr,
        alias_set: p.alias_set,
        stack: p.stack,
        cur_bin: p.cur_bin,
        cur_addr: fall,
        var: p.var,
        freed: true,
        len: (p.len + 1) as u64,
    }
}

/// At a recognized free call whose argument register tracks the same
/// allocation under the same context, every live state there is carried
/// past the call marked freed: anything that may alias what was freed is
/// treated as dangling.
pub open spec fn rule_trace_free(
    trs: Seq<PathAliasTrace>,
    free_calls: Seq<CallAddr>,
    instrs: Seq<Instr>,
    max: u64,
    out_rel: Seq<PathAliasTrace>,
) -> bool {
    forall|i: int, k: int|
        #![trigger trs[i], instrs[k]]
        0 <= i < trs.len() && trs[i].len < max && 0 <= k < instrs.len() && free_calls.contains(
            CallAddr { bin: trs[i].cur_bin, addr: trs[i].cur_addr },
        ) && tr_companion(trs, trs[i]) && instrs[k].bin == trs[i].cur_bin && instrs[k].addr
            == trs[i].cur_addr ==> out_rel.contains(tr_free_concl(trs[i], instrs[k].fall))
}

/// A fact justified by `rule_trace_free`.
pub open spec fn just_trace_free(
    trs: Seq<PathAliasTrace>,
    free_calls: Seq<CallAddr>,
    instrs: Seq<Instr>,
    max: u64,
    f: PathAliasTrace,
) -> bool {
    exists|i: int, k: int|
        #![trigger trs[i], instrs[k]]
        0 <= i < trs.len() && trs[i].len < max && 0 <= k < instrs.len() && free_calls.contains(
            CallAddr { bin: trs[i].cur_bin, addr: trs[i].cur_addr },
        ) && tr_companion(trs, trs[i]) && instrs[k].bin == trs[i].cur_bin && instrs[k].addr
            == trs[i].cur_addr && f == tr_free_concl(trs[i], instrs[k].fall)
}

/// Derives the conclusions of `rule_trace_free`.
pub fn derive_trace_free(trs: &Vec<PathAliasTrace>, free_calls: &Vec<CallAddr>, instrs: &Vec<Instr>, max: u64) -> (out: Vec<PathAliasTrace>)
    requires
        crate::schema::instrs_unique(instrs@),
    ensures
        rule_trace_free(trs@, free_calls@, instrs@, max, out@),
        forall|m: int|
            0 <= m < out@.len() ==> just_trace_free(trs@, free_calls@, instrs@, max, #[trigger] out@[m]),
{
    let mut out: Vec<PathAliasTrace> = Vec::new();
    let na = trs.len();
    for i in 0..na
        invariant
            na == trs@.len(),
            crate::schema::instrs_unique(instrs@),
            forall|i2: int, k2: int|
                #![trigger trs@[i2], instrs@[k2]]
                0 <= i2 < i && trs@[i2].len < max && 0 <= k2 < instrs@.len() && free_calls@.contains(
                    CallAddr { bin: trs@[i2].cur_bin, addr: trs@[i2].cur_addr },
                ) && tr_companion(trs@, trs@[i2]) && instrs@[k2].bin == trs@[i2].cur_bin
                    && instrs@[k2].addr == trs@[i2].cur_addr ==> out@.contains(
                    tr_free_concl(trs@[i2], instrs@[k2].fall),
                ),
            forall|m: int|
                0 <= m < out@.len() ==> just_trace_free(
                    trs@,
                    free_calls@,
                    instrs@,
                    max,
                    #[trigger] out@[m],
                ),
    {
        let p = trs[i];
        if p.len < max && contains_call_addr(free_calls, &CallAddr { bin: p.cur_bin, addr: p.cur_addr })
            && has_tr_companion(trs, &p) {
            match find_instr(instrs, p.cur_bin, p.cur_addr) {
                None => {
                    proof {
                        assert forall|k2: int|
                            0 <= k2 < instrs@.len() implies !((#[trigger] instrs@[k2]).bin
                            == trs@[i as int].cur_bin && instrs@[k2].addr
                            == trs@[i as int].cur_addr) by {}
                    }
                },
                Some(k0) => {
                    let f = PathAliasTrace {
                        src_bin: p.src_bin,
                        src_addr: p.src_addr,
                        alias_set: p.alias_set,
                        stack: p.stack,
                        cur_bin: p.cur_bin,
                        cur_addr: instrs[k0].fall,
                        var: p.var,
                        freed: true,
                        len: p.len + 1,
                    };
                    let ghost pre = out@;
                    out.push(f);
                    proof {
                        assert(out@.last() == f);
                        assert(forall|q: int| 0 <= q < pre.len() ==> out@[q] == pre[q]);
                        assert(f == tr_free_concl(trs@[i as int], instrs@[k0 as int].fall));
                        assert(just_trace_free(trs@, free_calls@, instrs@, max, f)) by {
                            assert((#[trigger] trs@[i as int]).cur_bin == p.cur_bin);
                            assert((#[trigger] instrs@[k0 as int]).bin == p.cur_bin);
                        }
                        assert forall|m2: int|
                            0 <= m2 < out@.len() implies just_trace_free(
                            trs@,
                            free_calls@,
                            instrs@,
                            max,
                            #[trigger] out@[m2],
                        ) by {
                            if m2 < pre.len() {
                                assert(out@[m2] == pre[m2]);
                            } else {
                                assert(out@[m2] == f);
                            }
                        }
                        assert forall|i2: int, k2: int|
                            #![trigger trs@[i2], instrs@[k2]]
                            0 <= i2 < i + 1 && trs@[i2].len < max && 0 <= k2 < instrs@.len() && free_calls@.contains(
                                CallAddr { bin: trs@[i2].cur_bin, addr: trs@[i2].cur_addr },
                            ) && tr_companion(trs@, trs@[i2]) && instrs@[k2].bin
                            == trs@[i2].cur_bin && instrs@[k2].addr == trs@[i2].cur_addr implies out@.contains(
                            tr_free_concl(trs@[i2], instrs@[k2].fall),
                        ) by {
                            if i2 < i {
                                let g = tr_free_concl(trs@[i2], instrs@[k2].fall);
                                let q = choose|q: int| 0 <= q < pre.len() && pre[q] == g;
                                assert(out@[q] == g);
                            } else {
                                assert(k2 == k0);
                            }
                        }
                    }
                },
            }
        } else {
            proof {
                assert forall|k2: int|
                    #![trigger instrs@[k2]]
                    trs@[i as int].len < max && 0 <= k2 < instrs@.len() && free_calls@.contains(
                        CallAddr { bin: trs@[i as int].cur_bin, addr: trs@[i as int].cur_addr },
                    ) && tr_companion(trs@, trs@[i as int]) && instrs@[k2].bin
                    == trs@[i as int].cur_bin && instrs@[k2].addr == trs@[i as int].cur_addr
                    implies out@.contains(tr_free_concl(trs@[i as int], instrs@[k2].fall)) by {
                    assert(false);
                }
            }
        }
    }
    out
}

/// A state at a stepped-over call flows to the call's own fallthrough
/// with taint transferred, except that the return-value register is
/// clobbered: the unmodeled callee's effect on it is unknown.
pub open spec fn rule_trace_skip(
    trs: Seq<PathAliasTrace>,
    skip_funcs: Seq<CallAddr>,
    instrs: Seq<Instr>,
    max: u64,
    out_rel: Seq<PathAliasTrace>,
) -> bool {
    forall|i: int, k: int, v: int|
        #![trigger trs[i], xfer_of(instrs[k], trs[i].var)[v]]
        0 <= i < trs.len() && trs[i].len < max && 0 <= k < instrs.len() && skip_funcs.contains(
            CallAddr { bin: trs[i].cur_bin, addr: trs[i].cur_addr },
        ) && instrs[k].bin == trs[i].cur_bin && instrs[k].addr == trs[i].cur_addr && 0 <= v
            < xfer_of(instrs[k], trs[i].var).len() && xfer_of(instrs[k], trs[i].var)[v]
            != crate::var::spec_reg(crate::var::REG_RET) ==> out_rel.contains(
            tr_prop_concl(trs[i], instrs[k].fall, xfer_of(instrs[k], trs[i].var)[v]),
        )
}

/// A fact justified by `rule_trace_skip`.
pub open spec fn just_trace_skip(
    trs: Seq<PathAliasTrace>,
    skip_funcs: Seq<CallAddr>,
    instrs: Seq<Instr>,
    max: u64,
    f: PathAliasTrace,
) -> bool {
    exists|i: int, k: int, v: int|
        #![trigger trs[i], xfer_of(instrs[k], trs[i].var)[v]]
        0 <= i < trs.len() && trs[i].len < max && 0 <= k < instrs.len() && skip_funcs.contains(
            CallAddr { bin: trs[i].cur_bin, addr: trs[i].cur_addr },
        ) && instrs[k].bin == trs[i].cur_bin && instrs[k].addr == trs[i].cur_addr && 0 <= v
            < xfer_of(instrs[k], trs[i].var).len() && xfer_of(instrs[k], trs[i].var)[v]
            != crate::var::spec_reg(crate::var::REG_RET) && f == tr_prop_concl(
            trs[i],
            instrs[k].fall,
            xfer_of(instrs[k], trs[i].var)[v],
        )
}

/// Derives the conclusions of `rule_trace_skip`.
pub fn derive_trace_skip(trs: &Vec<PathAliasTrace>, skip_funcs: &Vec<CallAddr>, instrs: &Vec<Instr>, max: u64) -> (out: Vec<PathAliasTrace>)
    requires
        crate::schema::instrs_unique(instrs@),
    ensures
        rule_trace_skip(trs@, skip_funcs@, instrs@, max, out@),
        forall|m: int|
            0 <= m < out@.len() ==> just_trace_skip(trs@, skip_funcs@, instrs@, max, #[trigger] out@[m]),
{
    let mut out: Vec<PathAliasTrace> = Vec::new();
    let ret_reg = crate::var::get_ret();
    let na = trs.len();
    for i in 0..na
        invariant
            na == trs@.len(),
            ret_reg == crate::var::spec_reg(crate::var::REG_RET),
            crate::schema::instrs_unique(instrs@),
            forall|i2: int, k2: int, v2: int|
                #![trigger trs@[i2], xfer_of(instrs@[k2], trs@[i2].var)[v2]]
                0 <= i2 < i && trs@[i2].len < max && 0 <= k2 < instrs@.len() && skip_funcs@.contains(
                    CallAddr { bin: trs@[i2].cur_bin, addr: trs@[i2].cur_addr },
                ) && instrs@[k2].bin == trs@[i2].cur_bin && instrs@[k2].addr == trs@[i2].cur_addr
                    && 0 <= v2 < xfer_of(instrs@[k2], trs@[i2].var).len() && xfer_of(
                    instrs@[k2],
                    trs@[i2].var,
                )[v2] != crate::var::spec_reg(crate::var::REG_RET) ==> out@.contains(
                    tr_prop_concl(trs@[i2], instrs@[k2].fall, xfer_of(instrs@[k2], trs@[i2].var)[v2]),
                ),
            forall|m: int|
                0 <= m < out@.len() ==> just_trace_skip(
                    trs@,
                    skip_funcs@,
                    instrs@,
                    max,
                    #[trigger] out@[m],
                ),
    {
        let p = trs[i];
        if p.len < max && contains_call_addr(skip_funcs, &CallAddr { bin: p.cur_bin, addr: p.cur_addr }) {
            match find_instr(instrs, p.cur_bin, p.cur_addr) {
                None => {
                    proof {
                        assert forall|k2: int|
                            0 <= k2 < instrs@.len() implies !((#[trigger] instrs@[k2]).bin
                            == trs@[i as int].cur_bin && instrs@[k2].addr
                            == trs@[i as int].cur_addr) by {}
                    }
                },
                Some(k0) => {
                    let vars = crate::analyses::xfer_taint(&instrs[k0].sema, &p.var);
                    proof {
                        assert(vars@ == xfer_of(instrs@[k0 as int], trs@[i as int].var));
                    }
                    let nv = vars.len();
                    for v in 0..nv
                        invariant
                            na == trs@.len(),
                            i < na,
                            p == trs@[i as int],
                            p.len < max,
                            nv == vars@.len(),
                            ret_reg == crate::var::spec_reg(crate::var::REG_RET),
                            crate::schema::instrs_unique(instrs@),
                            0 <= k0 < instrs@.len(),
                            instrs@[k0 as int].bin == p.cur_bin,
                            instrs@[k0 as int].addr == p.cur_addr,
                            skip_funcs@.contains(CallAddr { bin: p.cur_bin, addr: p.cur_addr }),
                            vars@ == xfer_of(instrs@[k0 as int], trs@[i as int].var),
                            forall|i2: int, k2: int, v2: int|
                                #![trigger trs@[i2], xfer_of(instrs@[k2], trs@[i2].var)[v2]]
                                0 <= i2 < i && trs@[i2].len < max && 0 <= k2 < instrs@.len() && skip_funcs@.contains(
                                    CallAddr { bin: trs@[i2].cur_bin, addr: trs@[i2].cur_addr },
                                ) && instrs@[k2].bin == trs@[i2].cur_bin && instrs@[k2].addr
                                    == trs@[i2].cur_addr && 0 <= v2 < xfer_of(
                                    instrs@[k2],
                                    trs@[i2].var,
                                ).len() && xfer_of(instrs@[k2], trs@[i2].var)[v2]
                                    != crate::var::spec_reg(crate::var::REG_RET) ==> out@.contains(
                                    tr_prop_concl(
                                        trs@[i2],
                                        instrs@[k2].fall,
                                        xfer_of(instrs@[k2], trs@[i2].var)[v2],
                                    ),
                                ),
                            forall|v2: int|
                                0 <= v2 < v && #[trigger] vars@[v2] != crate::var::spec_reg(
                                    crate::var::REG_RET,
                                ) ==> out@.contains(
                                    tr_prop_concl(trs@[i as int], instrs@[k0 as int].fall, vars@[v2]),
                                ),
                            forall|m: int|
                                0 <= m < out@.len() ==> just_trace_skip(
                                    trs@,
                                    skip_funcs@,
                                    instrs@,
                                    max,
                                    #[trigger] out@[m],
                                ),
                    {
                        if !(vars[v] == ret_reg) {
                            let f = PathAliasTrace {
                                src_bin: p.src_bin,
                                src_addr: p.src_addr,
                                alias_set: p.alias_set,
                                stack: p.stack,
                                cur_bin: p.cur_bin,
                                cur_addr: instrs[k0].fall,
                                var: vars[v],
                                freed: p.freed,
                                len: p.len + 1,
                            };
                            let ghost pre = out@;
                            out.push(f);
                            proof {
                                assert(out@.last() == f);
                                assert(forall|q: int| 0 <= q < pre.len() ==> out@[q] == pre[q]);
                                assert(f == tr_prop_concl(trs@[i as int], instrs@[k0 as int].fall, vars@[v as int]));
                                assert(just_trace_skip(trs@, skip_funcs@, instrs@, max, f)) by {
                                    assert(xfer_of(instrs@[k0 as int], trs@[i as int].var)[v as int]
                                        == vars@[v as int]);
                                }
                                assert forall|m2: int|
                                    0 <= m2 < out@.len() implies just_trace_skip(
                                    trs@,
                                    skip_funcs@,
                                    instrs@,
                                    max,
                                    #[trigger] out@[m2],
                                ) by {
                                    if m2 < pre.len() {
                                        assert(out@[m2] == pre[m2]);
                                    } else {
                                        assert(out@[m2] == f);
                                    }
                                }
                                assert forall|i2: int, k2: int, v2: int|
                                    #![trigger trs@[i2], xfer_of(instrs@[k2], trs@[i2].var)[v2]]
                                    0 <= i2 < i && trs@[i2].len < max && 0 <= k2 < instrs@.len() && skip_funcs@.contains(
                                        CallAddr { bin: trs@[i2].cur_bin, addr: trs@[i2].cur_addr },
                                    ) && instrs@[k2].bin == trs@[i2].cur_bin && instrs@[k2].addr
                                        == trs@[i2].cur_addr && 0 <= v2 < xfer_of(
                                        instrs@[k2],
                                        trs@[i2].var,
                                    ).len() && xfer_of(instrs@[k2], trs@[i2].var)[v2]
                                        != crate::var::spec_reg(crate::var::REG_RET) implies out@.contains(
                                    tr_prop_concl(
                                        trs@[i2],
                                        instrs@[k2].fall,
                                        xfer_of(instrs@[k2], trs@[i2].var)[v2],
                                    ),
                                ) by {
                                    let g = tr_prop_concl(
                                        trs@[i2],
                                        instrs@[k2].fall,
                                        xfer_of(instrs@[k2], trs@[i2].var)[v2],
                                    );
                                    let q = choose|q: int| 0 <= q < pre.len() && pre[q] == g;
                                    assert(out@[q] == g);
                                }
                                assert forall|v2: int|
                                    0 <= v2 < v + 1 && #[trigger] vars@[v2]
                                        != crate::var::spec_reg(crate::var::REG_RET) implies out@.contains(
                                    tr_prop_concl(trs@[i as int], instrs@[k0 as int].fall, vars@[v2]),
                                ) by {
                                    let g = tr_prop_concl(trs@[i as int], instrs@[k0 as int].fall, vars@[v2]);
                                    if v2 < v {
                                        let q = choose|q: int| 0 <= q < pre.len() && pre[q] == g;
                                        assert(out@[q] == g);
                                    } else {
                                        assert(out@.last() == g);
                                    }
                                }
                            }
                        }
                    }
                    proof {
                        assert forall|k2: int, v2: int|
                            #![trigger xfer_of(instrs@[k2], trs@[i as int].var)[v2]]
                            0 <= k2 < instrs@.len() && instrs@[k2].bin == trs@[i as int].cur_bin
                                && instrs@[k2].addr == trs@[i as int].cur_addr && 0 <= v2 < xfer_of(
                                instrs@[k2],
                                trs@[i as int].var,
                            ).len() && xfer_of(instrs@[k2], trs@[i as int].var)[v2]
                                != crate::var::spec_reg(crate::var::REG_RET) implies out@.contains(
                            tr_prop_concl(
                                trs@[i as int],
                                instrs@[k2].fall,
                                xfer_of(instrs@[k2], trs@[i as int].var)[v2],
                            ),
                        ) by {
                            assert(k2 == k0);
                        }
                    }
                },
            }
        } else {
            proof {
                assert(trs@[i as int].len < max ==> !skip_funcs@.contains(
                    CallAddr { bin: trs@[i as int].cur_bin, addr: trs@[i as int].cur_addr },
                ));
            }
        }
    }
    out
}

/// The state after popping one frame: resumed in the frame's binary at
/// its return site, under the frame's parent context.
pub open spec fn tr_pop_concl(p: PathAliasTrace, rec: StackFact) -> PathAliasTrace {
    PathAliasTrace {
        src_bin: p.src_bin,
        src_addr: p.src_addr,
        alias_set: p.alias_set,
        stack: rec.prev,
        cur_bin: rec.bin,
        cur_addr: rec.ret,
        var: p.var,
        freed: p.freed,
        len: (p.len + 1) as u64,
    }
}

/// A state at a return instruction pops its context's top frame and
/// resumes at that frame's return site.
pub open spec fn rule_trace_ret_pop(
    trs: Seq<PathAliasTrace>,
    instrs: Seq<Instr>,
    stacks: Seq<StackFact>,
    max: u64,
    out_rel: Seq<PathAliasTrace>,
) -> bool {
    forall|i: int, k: int|
        #![trigger trs[i], instrs[k]]
        0 <= i < trs.len() && trs[i].len < max && 0 <= k < instrs.len() && instrs[k].bin == trs[i].cur_bin
            && instrs[k].addr == trs[i].cur_addr && instrs[k].is_ret && trs[i].stack != 0
            && trs[i].stack < stacks.len() ==> out_rel.contains(
            tr_pop_concl(trs[i], stacks[trs[i].stack as int]),
        )
}

/// A fact justified by `rule_trace_ret_pop`.
pub open spec fn just_trace_ret_pop(
    trs: Seq<PathAliasTrace>,
    instrs: Seq<Instr>,
    stacks: Seq<StackFact>,
    max: u64,
    f: PathAliasTrace,
) -> bool {
    exists|i: int, k: int|
        #![trigger trs[i], instrs[k]]
        0 <= i < trs.len() && trs[i].len < max && 0 <= k < instrs.len() && instrs[k].bin == trs[i].cur_bin
            && instrs[k].addr == trs[i].cur_addr && instrs[k].is_ret && trs[i].stack != 0
            && trs[i].stack < stacks.len() && f == tr_pop_concl(trs[i], stacks[trs[i].stack as int])
}

/// Derives the conclusions of `rule_trace_ret_pop`.
pub fn derive_trace_ret_pop(trs: &Vec<PathAliasTrace>, instrs: &Vec<Instr>, stacks: &Vec<StackFact>, max: u64) -> (out: Vec<PathAliasTrace>)
    requires
        crate::schema::instrs_unique(instrs@),
        forall|i: int| 0 <= i < trs@.len() ==> (#[trigger] trs@[i]).stack < stacks@.len(),
    ensures
        rule_trace_ret_pop(trs@, instrs@, stacks@, max, out@),
        forall|m: int|
            0 <= m < out@.len() ==> just_trace_ret_pop(trs@, instrs@, stacks@, max, #[trigger] out@[m]),
{
    let mut out: Vec<PathAliasTrace> = Vec::new();
    let na = trs.len();
    for i in 0..na
        invariant
            na == trs@.len(),
            crate::schema::instrs_unique(instrs@),
            forall|i3: int| 0 <= i3 < trs@.len() ==> (#[trigger] trs@[i3]).stack < stacks@.len(),
            forall|i2: int, k2: int|
                #![trigger trs@[i2], instrs@[k2]]
                0 <= i2 < i && trs@[i2].len < max && 0 <= k2 < instrs@.len() && instrs@[k2].bin == trs@[i2].cur_bin
                    && instrs@[k2].addr == trs@[i2].cur_addr && instrs@[k2].is_ret && trs@[i2].stack
                    != 0 && trs@[i2].stack < stacks@.len() ==> out@.contains(
                    tr_pop_concl(trs@[i2], stacks@[trs@[i2].stack as int]),
                ),
            forall|m: int|
                0 <= m < out@.len() ==> just_trace_ret_pop(
                    trs@,
                    instrs@,
                    stacks@,
                    max,
                    #[trigger] out@[m],
                ),
    {
        let p = trs[i];
        if p.len < max {
        match find_instr(instrs, p.cur_bin, p.cur_addr) {
            None => {
                proof {
                    assert forall|k2: int|
                        0 <= k2 < instrs@.len() implies !((#[trigger] instrs@[k2]).bin
                        == trs@[i as int].cur_bin && instrs@[k2].addr == trs@[i as int].cur_addr)
                        by {}
                }
            },
            Some(k0) => {
                if instrs[k0].is_ret && p.stack != 0 {
                    let nstacks = stacks.len();
                    proof {
                        assert(nstacks == stacks@.len());
                        assert(trs@[i as int].stack < stacks@.len());
                    }
                    #[verifier::truncate]
                    let sid = p.stack as usize;
                    proof {
                        assert(sid as int == p.stack as int);
                    }
                    let rec = stacks[sid];
                    let f = PathAliasTrace {
                        src_bin: p.src_bin,
                        src_addr: p.src_addr,
                        alias_set: p.alias_set,
                        stack: rec.prev,
                        cur_bin: rec.bin,
                        cur_addr: rec.ret,
                        var: p.var,
                        freed: p.freed,
                        len: p.len + 1,
                    };
                    let ghost pre = out@;
                    out.push(f);
                    proof {
                        assert(out@.last() == f);
                        assert(forall|q: int| 0 <= q < pre.len() ==> out@[q] == pre[q]);
                        assert(f == tr_pop_concl(trs@[i as int], stacks@[trs@[i as int].stack as int]));
                        assert(just_trace_ret_pop(trs@, instrs@, stacks@, max, f)) by {
                            assert((#[trigger] instrs@[k0 as int]).is_ret);
                        }
                        assert forall|m2: int|
                            0 <= m2 < out@.len() implies just_trace_ret_pop(
                            trs@,
                            instrs@,
                            stacks@,
                            max,
                            #[trigger] out@[m2],
                        ) by {
                            if m2 < pre.len() {
                                assert(out@[m2] == pre[m2]);
                            } else {
                                assert(out@[m2] == f);
                            }
                        }
                        assert forall|i2: int, k2: int|
                            #![trigger trs@[i2], instrs@[k2]]
                            0 <= i2 < i + 1 && trs@[i2].len < max && 0 <= k2 < instrs@.len() && instrs@[k2].bin
                            == trs@[i2].cur_bin && instrs@[k2].addr == trs@[i2].cur_addr
                            && instrs@[k2].is_ret && trs@[i2].stack != 0 && trs@[i2].stack
                            < stacks@.len() implies out@.contains(
                            tr_pop_concl(trs@[i2], stacks@[trs@[i2].stack as int]),
                        ) by {
                            if i2 < i {
                                let g = tr_pop_concl(trs@[i2], stacks@[trs@[i2].stack as int]);
                                let q = choose|q: int| 0 <= q < pre.len() && pre[q] == g;
                                assert(out@[q] == g);
                            } else {
                                assert(k2 == k0);
                            }
                        }
                    }
                } else {
                    proof {
                        assert forall|k2: int|
                            #![trigger instrs@[k2]]
                            0 <= k2 < instrs@.len() && instrs@[k2].bin == trs@[i as int].cur_bin
                            && instrs@[k2].addr == trs@[i as int].cur_addr implies !(
                        instrs@[k2].is_ret && trs@[i as int].stack != 0) by {
                            assert(k2 == k0);
                        }
                    }
                }
            },
        }
        } else {
            proof {
                assert(!(trs@[i as int].len < max));
            }
        }
    }
    out
}


/// The trace state entered into a callee: extended context, one more
/// step.
pub open spec fn tr_call_concl(p: PathAliasTrace, cs: CallSite, s2: int, var2: HVar) -> PathAliasTrace {
    PathAliasTrace {
        src_bin: p.src_bin,
        src_addr: p.src_addr,
        alias_set: p.alias_set,
        stack: s2 as u64,
        cur_bin: cs.dst_bin,
        cur_addr: cs.dst_addr,
        var: var2,
        freed: p.freed,
        len: (p.len + 1) as u64,
    }
}

/// A trace state at a resolved call enters the callee under the pushed
/// context, within the length bound.
pub open spec fn rule_trace_call(
    trs: Seq<PathAliasTrace>,
    instrs: Seq<Instr>,
    call_sites: Seq<CallSite>,
    stacks: Seq<StackFact>,
    max: u64,
    out_rel: Seq<PathAliasTrace>,
) -> bool {
    forall|i: int, k: int, j: int, s2: int, v: int|
        #![trigger trs[i], call_sites[j], stacks[s2], xfer_of(instrs[k], trs[i].var)[v]]
        0 <= i < trs.len() && trs[i].len < max && 0 <= k < instrs.len() && 0 <= j
            < call_sites.len() && 0 <= s2 < stacks.len() && instrs[k].bin == trs[i].cur_bin
            && instrs[k].addr == trs[i].cur_addr && call_sites[j].src_bin == trs[i].cur_bin
            && call_sites[j].src_addr == trs[i].cur_addr && stacks[s2].prev == trs[i].stack
            && stacks[s2].bin == trs[i].cur_bin && stacks[s2].ret == instrs[k].fall && 0 <= v
            < xfer_of(instrs[k], trs[i].var).len() ==> out_rel.contains(
            tr_call_concl(trs[i], call_sites[j], s2, xfer_of(instrs[k], trs[i].var)[v]),
        )
}

/// A fact justified by `rule_trace_call`.
pub open spec fn just_trace_call(
    trs: Seq<PathAliasTrace>,
    instrs: Seq<Instr>,
    call_sites: Seq<CallSite>,
    stacks: Seq<StackFact>,
    max: u64,
    f: PathAliasTrace,
) -> bool {
    exists|i: int, k: int, j: int, s2: int, v: int|
        #![trigger trs[i], call_sites[j], stacks[s2], xfer_of(instrs[k], trs[i].var)[v]]
        0 <= i < trs.len() && trs[i].len < max && 0 <= k < instrs.len() && 0 <= j
            < call_sites.len() && 0 <= s2 < stacks.len() && instrs[k].bin == trs[i].cur_bin
            && instrs[k].addr == trs[i].cur_addr && call_sites[j].src_bin == trs[i].cur_bin
            && call_sites[j].src_addr == trs[i].cur_addr && stacks[s2].prev == trs[i].stack
            && stacks[s2].bin == trs[i].cur_bin && stacks[s2].ret == instrs[k].fall && 0 <= v
            < xfer_of(instrs[k], trs[i].var).len() && f == tr_call_concl(
            trs[i],
            call_sites[j],
            s2,
            xfer_of(instrs[k], trs[i].var)[v],
        )
}

/// Derives the conclusions of `rule_trace_call`.
pub fn derive_trace_call(
    trs: &Vec<PathAliasTrace>,
    instrs: &Vec<Instr>,
    call_sites: &Vec<CallSite>,
    stacks: &Vec<StackFact>,
    max: u64,
) -> (out: Vec<PathAliasTrace>)
    requires
        crate::schema::instrs_unique(instrs@),
        crate::schema::stacks_wf(stacks@),
    ensures
        rule_trace_call(trs@, instrs@, call_sites@, stacks@, max, out@),
        forall|m: int|
            0 <= m < out@.len() ==> just_trace_call(
                trs@,
                instrs@,
                call_sites@,
                stacks@,
                max,
                #[trigger] out@[m],
            ),
{
    let mut out: Vec<PathAliasTrace> = Vec::new();
    let na = trs.len();
    for i in 0..na
        invariant
            na == trs@.len(),
            crate::schema::instrs_unique(instrs@),
            crate::schema::stacks_wf(stacks@),
            forall|i2: int, k2: int, j2: int, s3: int, v2: int|
                #![trigger trs@[i2], call_sites@[j2], stacks@[s3], xfer_of(instrs@[k2], trs@[i2].var)[v2]]
                0 <= i2 < i && trs@[i2].len < max && 0 <= k2 < instrs@.len() && 0 <= j2
                    < call_sites@.len() && 0 <= s3 < stacks@.len() && instrs@[k2].bin
                    == trs@[i2].cur_bin && instrs@[k2].addr == trs@[i2].cur_addr
                    && call_sites@[j2].src_bin == trs@[i2].cur_bin && call_sites@[j2].src_addr
                    == trs@[i2].cur_addr && stacks@[s3].prev == trs@[i2].stack && stacks@[s3].bin
                    == trs@[i2].cur_bin && stacks@[s3].ret == instrs@[k2].fall && 0 <= v2 < xfer_of(
                    instrs@[k2],
                    trs@[i2].var,
                ).len() ==> out@.contains(
                    tr_call_concl(trs@[i2], call_sites@[j2], s3, xfer_of(instrs@[k2], trs@[i2].var)[v2]),
                ),
            forall|m: int|
                0 <= m < out@.len() ==> just_trace_call(
                    trs@,
                    instrs@,
                    call_sites@,
                    stacks@,
                    max,
                    #[trigger] out@[m],
                ),
    {
        let p = trs[i];
        if p.len < max {
            match find_instr(instrs, p.cur_bin, p.cur_addr) {
                None => {
                    proof {
                        assert forall|k2: int|
                            0 <= k2 < instrs@.len() implies !((#[trigger] instrs@[k2]).bin
                            == trs@[i as int].cur_bin && instrs@[k2].addr
                            == trs@[i as int].cur_addr) by {}
                    }
                },
                Some(k0) => {
                    let fall = instrs[k0].fall;
                    let vars = crate::analyses::xfer_taint(&instrs[k0].sema, &p.var);
                    proof {
                        assert(vars@ == xfer_of(instrs@[k0 as int], trs@[i as int].var));
                    }
                    match find_stack(stacks, p.stack, p.cur_bin, fall) {
                        None => {
                            proof {
                                assert forall|k2: int, s3: int|
                                    #![trigger instrs@[k2], stacks@[s3]]
                                    0 <= k2 < instrs@.len() && 0 <= s3 < stacks@.len()
                                        && instrs@[k2].bin == trs@[i as int].cur_bin
                                        && instrs@[k2].addr == trs@[i as int].cur_addr
                                        && stacks@[s3].prev == trs@[i as int].stack
                                        && stacks@[s3].bin == trs@[i as int].cur_bin
                                        && stacks@[s3].ret == instrs@[k2].fall implies false by {
                                    assert(k2 == k0);
                                    assert(!((#[trigger] stacks@[s3]).prev == p.stack
                                        && stacks@[s3].bin == p.cur_bin && stacks@[s3].ret == fall));
                                }
                            }
                        },
                        Some(sid) => {
                            let nj = call_sites.len();
                            for j in 0..nj
                                invariant
                                    na == trs@.len(),
                                    i < na,
                                    p == trs@[i as int],
                                    p.len < max,
                                    nj == call_sites@.len(),
                                    crate::schema::instrs_unique(instrs@),
                                    crate::schema::stacks_wf(stacks@),
                                    0 <= k0 < instrs@.len(),
                                    instrs@[k0 as int].bin == p.cur_bin,
                                    instrs@[k0 as int].addr == p.cur_addr,
                                    instrs@[k0 as int].fall == fall,
                                    0 <= sid < stacks@.len(),
                                    stacks@[sid as int].prev == p.stack,
                                    stacks@[sid as int].bin == p.cur_bin,
                                    stacks@[sid as int].ret == fall,
                                    vars@ == xfer_of(instrs@[k0 as int], trs@[i as int].var),
                                    forall|i2: int, k2: int, j2: int, s3: int, v2: int|
                                        #![trigger trs@[i2], call_sites@[j2], stacks@[s3], xfer_of(instrs@[k2], trs@[i2].var)[v2]]
                                        0 <= i2 < i && trs@[i2].len < max && 0 <= k2
                                            < instrs@.len() && 0 <= j2 < call_sites@.len() && 0
                                            <= s3 < stacks@.len() && instrs@[k2].bin
                                            == trs@[i2].cur_bin && instrs@[k2].addr
                                            == trs@[i2].cur_addr && call_sites@[j2].src_bin
                                            == trs@[i2].cur_bin && call_sites@[j2].src_addr
                                            == trs@[i2].cur_addr && stacks@[s3].prev
                                            == trs@[i2].stack && stacks@[s3].bin
                                            == trs@[i2].cur_bin && stacks@[s3].ret
                                            == instrs@[k2].fall && 0 <= v2 < xfer_of(
                                            instrs@[k2],
                                            trs@[i2].var,
                                        ).len() ==> out@.contains(
                                            tr_call_concl(
                                                trs@[i2],
                                                call_sites@[j2],
                                                s3,
                                                xfer_of(instrs@[k2], trs@[i2].var)[v2],
                                            ),
                                        ),
                                    forall|j2: int, v2: int|
                                        #![trigger call_sites@[j2], vars@[v2]]
                                        0 <= j2 < j && call_sites@[j2].src_bin == p.cur_bin
                                            && call_sites@[j2].src_addr == p.cur_addr && 0 <= v2
                                            < vars@.len() ==> out@.contains(
                                            tr_call_concl(
                                                trs@[i as int],
                                                call_sites@[j2],
                                                sid as int,
                                                vars@[v2],
                                            ),
                                        ),
                                    forall|m: int|
                                        0 <= m < out@.len() ==> just_trace_call(
                                            trs@,
                                            instrs@,
                                            call_sites@,
                                            stacks@,
                                            max,
                                            #[trigger] out@[m],
                                        ),
                            {
                                if call_sites[j].src_bin == p.cur_bin && call_sites[j].src_addr
                                    == p.cur_addr {
                                    let nv = vars.len();
                                    for v in 0..nv
                                        invariant
                                            na == trs@.len(),
                                            i < na,
                                            j < nj,
                                            p == trs@[i as int],
                                            p.len < max,
                                            nj == call_sites@.len(),
                                            nv == vars@.len(),
                                            crate::schema::instrs_unique(instrs@),
                                            crate::schema::stacks_wf(stacks@),
                                            0 <= k0 < instrs@.len(),
                                            instrs@[k0 as int].bin == p.cur_bin,
                                            instrs@[k0 as int].addr == p.cur_addr,
                                            instrs@[k0 as int].fall == fall,
                                            0 <= sid < stacks@.len(),
                                            stacks@[sid as int].prev == p.stack,
                                            stacks@[sid as int].bin == p.cur_bin,
                                            stacks@[sid as int].ret == fall,
                                            call_sites@[j as int].src_bin == p.cur_bin,
                                            call_sites@[j as int].src_addr == p.cur_addr,
                                            vars@ == xfer_of(instrs@[k0 as int], trs@[i as int].var),
                                            forall|i2: int, k2: int, j2: int, s3: int, v2: int|
                                                #![trigger trs@[i2], call_sites@[j2], stacks@[s3], xfer_of(instrs@[k2], trs@[i2].var)[v2]]
                                                0 <= i2 < i && trs@[i2].len < max && 0 <= k2
                                                    < instrs@.len() && 0 <= j2 < call_sites@.len()
                                                    && 0 <= s3 < stacks@.len() && instrs@[k2].bin
                                                    == trs@[i2].cur_bin && instrs@[k2].addr
                                                    == trs@[i2].cur_addr
                                                    && call_sites@[j2].src_bin == trs@[i2].cur_bin
                                                    && call_sites@[j2].src_addr
                                                    == trs@[i2].cur_addr && stacks@[s3].prev
                                                    == trs@[i2].stack && stacks@[s3].bin
                                                    == trs@[i2].cur_bin && stacks@[s3].ret
                                                    == instrs@[k2].fall && 0 <= v2 < xfer_of(
                                                    instrs@[k2],
                                                    trs@[i2].var,
                                                ).len() ==> out@.contains(
                                                    tr_call_concl(
                                                        trs@[i2],
                                                        call_sites@[j2],
                                                        s3,
                                                        xfer_of(instrs@[k2], trs@[i2].var)[v2],
                                                    ),
                                                ),
                                            forall|j2: int, v2: int|
                                                #![trigger call_sites@[j2], vars@[v2]]
                                                0 <= j2 < j && call_sites@[j2].src_bin == p.cur_bin
                                                    && call_sites@[j2].src_addr == p.cur_addr && 0
                                                    <= v2 < vars@.len() ==> out@.contains(
                                                    tr_call_concl(
                                                        trs@[i as int],
                                                        call_sites@[j2],
                                                        sid as int,
                                                        vars@[v2],
                                                    ),
                                                ),
                                            forall|v2: int|
                                                0 <= v2 < v ==> out@.contains(
                                                    tr_call_concl(
                                                        trs@[i as int],
                                                        call_sites@[j as int],
                                                        sid as int,
                                                        #[trigger] vars@[v2],
                                                    ),
                                                ),
                                            forall|m: int|
                                                0 <= m < out@.len() ==> just_trace_call(
                                                    trs@,
                                                    instrs@,
                                                    call_sites@,
                                                    stacks@,
                                                    max,
                                                    #[trigger] out@[m],
                                                ),
                                    {
                                        let f = PathAliasTrace {
                                            src_bin: p.src_bin,
                                            src_addr: p.src_addr,
                                            alias_set: p.alias_set,
                                            stack: sid as u64,
                                            cur_bin: call_sites[j].dst_bin,
                                            cur_addr: call_sites[j].dst_addr,
                                            var: vars[v],
                                            freed: p.freed,
                                            len: p.len + 1,
                                        };
                                        let ghost pre = out@;
                                        out.push(f);
                                        proof {
                                            assert(out@.last() == f);
                                            assert(forall|q: int|
                                                0 <= q < pre.len() ==> out@[q] == pre[q]);
                                            assert(f == tr_call_concl(
                                                trs@[i as int],
                                                call_sites@[j as int],
                                                sid as int,
                                                vars@[v as int],
                                            ));
                                            assert(just_trace_call(
                                                trs@,
                                                instrs@,
                                                call_sites@,
                                                stacks@,
                                                max,
                                                f,
                                            )) by {
                                                assert(xfer_of(
                                                    instrs@[k0 as int],
                                                    trs@[i as int].var,
                                                )[v as int] == vars@[v as int]);
                                                assert((#[trigger] stacks@[sid as int]).prev
                                                    == p.stack);
                                            }
                                            assert forall|m2: int|
                                                0 <= m2 < out@.len() implies just_trace_call(
                                                trs@,
                                                instrs@,
                                                call_sites@,
                                                stacks@,
                                                max,
                                                #[trigger] out@[m2],
                                            ) by {
                                                if m2 < pre.len() {
                                                    assert(out@[m2] == pre[m2]);
                                                } else {
                                                    assert(out@[m2] == f);
                                                }
                                            }
                                            assert forall|i2: int, k2: int, j2: int, s3: int, v2: int|
                                                #![trigger trs@[i2], call_sites@[j2], stacks@[s3], xfer_of(instrs@[k2], trs@[i2].var)[v2]]
                                                0 <= i2 < i && trs@[i2].len < max && 0 <= k2
                                                    < instrs@.len() && 0 <= j2 < call_sites@.len()
                                                    && 0 <= s3 < stacks@.len() && instrs@[k2].bin
                                                    == trs@[i2].cur_bin && instrs@[k2].addr
                                                    == trs@[i2].cur_addr
                                                    && call_sites@[j2].src_bin == trs@[i2].cur_bin
                                                    && call_sites@[j2].src_addr
                                                    == trs@[i2].cur_addr && stacks@[s3].prev
                                                    == trs@[i2].stack && stacks@[s3].bin
                                                    == trs@[i2].cur_bin && stacks@[s3].ret
                                                    == instrs@[k2].fall && 0 <= v2 < xfer_of(
                                                    instrs@[k2],
                                                    trs@[i2].var,
                                                ).len() implies out@.contains(
                                                tr_call_concl(
                                                    trs@[i2],
                                                    call_sites@[j2],
                                                    s3,
                                                    xfer_of(instrs@[k2], trs@[i2].var)[v2],
                                                ),
                                            ) by {
                                                let g = tr_call_concl(
                                                    trs@[i2],
                                                    call_sites@[j2],
                                                    s3,
                                                    xfer_of(instrs@[k2], trs@[i2].var)[v2],
                                                );
                                                let q = choose|q: int|
                                                    0 <= q < pre.len() && pre[q] == g;
                                                assert(out@[q] == g);
                                            }
                                            assert forall|j2: int, v2: int|
                                                #![trigger call_sites@[j2], vars@[v2]]
                                                0 <= j2 < j && call_sites@[j2].src_bin == p.cur_bin
                                                    && call_sites@[j2].src_addr == p.cur_addr && 0
                                                    <= v2 < vars@.len() implies out@.contains(
                                                tr_call_concl(
                                                    trs@[i as int],
                                                    call_sites@[j2],
                                                    sid as int,
                                                    vars@[v2],
                                                ),
                                            ) by {
                                                let g = tr_call_concl(
                                                    trs@[i as int],
                                                    call_sites@[j2],
                                                    sid as int,
                                                    vars@[v2],
                                                );
                                                let q = choose|q: int|
                                                    0 <= q < pre.len() && pre[q] == g;
                                                assert(out@[q] == g);
                                            }
                                            assert forall|v2: int|
                                                0 <= v2 < v + 1 implies out@.contains(
                                                tr_call_concl(
                                                    trs@[i as int],
                                                    call_sites@[j as int],
                                                    sid as int,
                                                    #[trigger] vars@[v2],
                                                ),
                                            ) by {
                                                let g = tr_call_concl(
                                                    trs@[i as int],
                                                    call_sites@[j as int],
                                                    sid as int,
                                                    vars@[v2],
                                                );
                                                if v2 < v {
                                                    let q = choose|q: int|
                                                        0 <= q < pre.len() && pre[q] == g;
                                                    assert(out@[q] == g);
                                                } else {
                                                    assert(out@.last() == g);
                                                }
                                            }
                                        }
                                    }
                                    proof {
                                        assert forall|j2: int, v2: int|
                                            #![trigger call_sites@[j2], vars@[v2]]
                                            0 <= j2 < j + 1 && call_sites@[j2].src_bin == p.cur_bin
                                                && call_sites@[j2].src_addr == p.cur_addr && 0
                                                <= v2 < vars@.len() implies out@.contains(
                                            tr_call_concl(
                                                trs@[i as int],
                                                call_sites@[j2],
                                                sid as int,
                                                vars@[v2],
                                            ),
                                        ) by {
                                            if j2 == j {
                                                assert(out@.contains(
                                                    tr_call_concl(
                                                        trs@[i as int],
                                                        call_sites@[j as int],
                                                        sid as int,
                                                        vars@[v2],
                                                    ),
                                                ));
                                            }
                                        }
                                    }
                                }
                            }
                            proof {
                                assert forall|k2: int, j2: int, s3: int, v2: int|
                                    #![trigger call_sites@[j2], stacks@[s3], xfer_of(instrs@[k2], trs@[i as int].var)[v2]]
                                    0 <= k2 < instrs@.len() && 0 <= j2 < call_sites@.len() && 0
                                        <= s3 < stacks@.len() && instrs@[k2].bin
                                        == trs@[i as int].cur_bin && instrs@[k2].addr
                                        == trs@[i as int].cur_addr && call_sites@[j2].src_bin
                                        == trs@[i as int].cur_bin && call_sites@[j2].src_addr
                                        == trs@[i as int].cur_addr && stacks@[s3].prev
                                        == trs@[i as int].stack && stacks@[s3].bin
                                        == trs@[i as int].cur_bin && stacks@[s3].ret
                                        == instrs@[k2].fall && 0 <= v2 < xfer_of(
                                        instrs@[k2],
                                        trs@[i as int].var,
                                    ).len() implies out@.contains(
                                    tr_call_concl(
                                        trs@[i as int],
                                        call_sites@[j2],
                                        s3,
                                        xfer_of(instrs@[k2], trs@[i as int].var)[v2],
                                    ),
                                ) by {
                                    assert(k2 == k0);
                                    assert(s3 == sid);
                                }
                            }
                        },
                    }
                },
            }
        } else {
            proof {
                assert(!(trs@[i as int].len < max));
            }
        }
    }
    out
}

/// The trace state resumed at a caller of the returning function.
pub open spec fn tr_retno_concl(p: PathAliasTrace, cs: CallSite, fall2: u64) -> PathAliasTrace {
    PathAliasTrace {
        src_bin: p.src_bin,
        src_addr: p.src_addr,
        alias_set: p.alias_set,
        stack: 0,
        cur_bin: cs.src_bin,
        cur_addr: fall2,
        var: p.var,
        freed: p.freed,
        len: (p.len + 1) as u64,
    }
}

/// A trace state returning under the empty context resumes at every
/// statically known call site of the returning function, within the
/// length bound.
pub open spec fn rule_trace_ret_notarget(
    trs: Seq<PathAliasTrace>,
    funcs: Seq<FuncFact>,
    call_sites: Seq<CallSite>,
    instrs: Seq<Instr>,
    max: u64,
    out_rel: Seq<PathAliasTrace>,
) -> bool {
    forall|i: int, j: int, k: int, m: int, m2: int|
        #![trigger trs[i], funcs[j], call_sites[k], instrs[m], instrs[m2]]
        0 <= i < trs.len() && trs[i].len < max && 0 <= j < funcs.len() && 0 <= k
            < call_sites.len() && 0 <= m < instrs.len() && 0 <= m2 < instrs.len() && trs[i].stack
            == 0 && funcs[j].bin == trs[i].cur_bin && funcs[j].addr == trs[i].cur_addr
            && call_sites[k].dst_bin == trs[i].cur_bin && call_sites[k].dst_addr == funcs[j].entry
            && instrs[m].bin == trs[i].cur_bin && instrs[m].addr == trs[i].cur_addr
            && instrs[m].is_ret && instrs[m2].bin == call_sites[k].src_bin && instrs[m2].addr
            == call_sites[k].src_addr ==> out_rel.contains(
            tr_retno_concl(trs[i], call_sites[k], instrs[m2].fall),
        )
}

/// A fact justified by `rule_trace_ret_notarget`.
pub open spec fn just_trace_ret_notarget(
    trs: Seq<PathAliasTrace>,
    funcs: Seq<FuncFact>,
    call_sites: Seq<CallSite>,
    instrs: Seq<Instr>,
    max: u64,
    f: PathAliasTrace,
) -> bool {
    exists|i: int, j: int, k: int, m: int, m2: int|
        #![trigger trs[i], funcs[j], call_sites[k], instrs[m], instrs[m2]]
        0 <= i < trs.len() && trs[i].len < max && 0 <= j < funcs.len() && 0 <= k
            < call_sites.len() && 0 <= m < instrs.len() && 0 <= m2 < instrs.len() && trs[i].stack
            == 0 && funcs[j].bin == trs[i].cur_bin && funcs[j].addr == trs[i].cur_addr
            && call_sites[k].dst_bin == trs[i].cur_bin && call_sites[k].dst_addr == funcs[j].entry
            && instrs[m].bin == trs[i].cur_bin && instrs[m].addr == trs[i].cur_addr
            && instrs[m].is_ret && instrs[m2].bin == call_sites[k].src_bin && instrs[m2].addr
            == call_sites[k].src_addr && f == tr_retno_concl(trs[i], call_sites[k], instrs[m2].fall)
}

/// Derives the conclusions of `rule_trace_ret_notarget`.
#[verifier::rlimit(100)]
pub fn derive_trace_ret_notarget(
    trs: &Vec<PathAliasTrace>,
    funcs: &Vec<FuncFact>,
    call_sites: &Vec<CallSite>,
    instrs: &Vec<Instr>,
    max: u64,
) -> (out: Vec<PathAliasTrace>)
    requires
        crate::schema::instrs_unique(instrs@),
    ensures
        rule_trace_ret_notarget(trs@, funcs@, call_sites@, instrs@, max, out@),
        forall|m: int|
            0 <= m < out@.len() ==> just_trace_ret_notarget(
                trs@,
                funcs@,
                call_sites@,
                instrs@,
                max,
                #[trigger] out@[m],
            ),
{
    let mut out: Vec<PathAliasTrace> = Vec::new();
    let na = trs.len();
    for i in 0..na
        invariant
            na == trs@.len(),
            crate::schema::instrs_unique(instrs@),
            forall|i2: int, j2: int, k2: int, m3: int, m4: int|
                #![trigger trs@[i2], funcs@[j2], call_sites@[k2], instrs@[m3], instrs@[m4]]
                0 <= i2 < i && trs@[i2].len < max && 0 <= j2 < funcs@.len() && 0 <= k2
                    < call_sites@.len() && 0 <= m3 < instrs@.len() && 0 <= m4 < instrs@.len()
                    && trs@[i2].stack == 0 && funcs@[j2].bin == trs@[i2].cur_bin && funcs@[j2].addr
                    == trs@[i2].cur_addr && call_sites@[k2].dst_bin == trs@[i2].cur_bin
                    && call_sites@[k2].dst_addr == funcs@[j2].entry && instrs@[m3].bin
                    == trs@[i2].cur_bin && instrs@[m3].addr == trs@[i2].cur_addr
                    && instrs@[m3].is_ret && instrs@[m4].bin == call_sites@[k2].src_bin
                    && instrs@[m4].addr == call_sites@[k2].src_addr ==> out@.contains(
                    tr_retno_concl(trs@[i2], call_sites@[k2], instrs@[m4].fall),
                ),
            forall|mm: int|
                0 <= mm < out@.len() ==> just_trace_ret_notarget(
                    trs@,
                    funcs@,
                    call_sites@,
                    instrs@,
                    max,
                    #[trigger] out@[mm],
                ),
    {
        let p = trs[i];
        let mut skip_state = true;
        let mut m0: usize = 0;
        if p.len < max && p.stack == 0 {
            match find_instr(instrs, p.cur_bin, p.cur_addr) {
                None => {
                    proof {
                        assert forall|m3: int|
                            0 <= m3 < instrs@.len() implies !((#[trigger] instrs@[m3]).bin
                            == trs@[i as int].cur_bin && instrs@[m3].addr
                            == trs@[i as int].cur_addr) by {}
                    }
                },
                Some(mf) => {
                    if instrs[mf].is_ret {
                        skip_state = false;
                        m0 = mf;
                    } else {
                        proof {
                            assert forall|m3: int|
                                #![trigger instrs@[m3]]
                                0 <= m3 < instrs@.len() && instrs@[m3].bin
                                == trs@[i as int].cur_bin && instrs@[m3].addr
                                == trs@[i as int].cur_addr implies !instrs@[m3].is_ret by {
                                assert(m3 == mf);
                            }
                        }
                    }
                },
            }
        }
        if !skip_state {
            let nj = funcs.len();
            for j in 0..nj
                invariant
                    na == trs@.len(),
                    i < na,
                    p == trs@[i as int],
                    p.stack == 0,
                    p.len < max,
                    nj == funcs@.len(),
                    crate::schema::instrs_unique(instrs@),
                    0 <= m0 < instrs@.len(),
                    instrs@[m0 as int].bin == p.cur_bin,
                    instrs@[m0 as int].addr == p.cur_addr,
                    instrs@[m0 as int].is_ret,
                    forall|i2: int, j2: int, k2: int, m3: int, m4: int|
                        #![trigger trs@[i2], funcs@[j2], call_sites@[k2], instrs@[m3], instrs@[m4]]
                        0 <= i2 < i && trs@[i2].len < max && 0 <= j2 < funcs@.len() && 0 <= k2
                            < call_sites@.len() && 0 <= m3 < instrs@.len() && 0 <= m4
                            < instrs@.len() && trs@[i2].stack == 0 && funcs@[j2].bin
                            == trs@[i2].cur_bin && funcs@[j2].addr == trs@[i2].cur_addr
                            && call_sites@[k2].dst_bin == trs@[i2].cur_bin
                            && call_sites@[k2].dst_addr == funcs@[j2].entry && instrs@[m3].bin
                            == trs@[i2].cur_bin && instrs@[m3].addr == trs@[i2].cur_addr
                            && instrs@[m3].is_ret && instrs@[m4].bin == call_sites@[k2].src_bin
                            && instrs@[m4].addr == call_sites@[k2].src_addr ==> out@.contains(
                            tr_retno_concl(trs@[i2], call_sites@[k2], instrs@[m4].fall),
                        ),
                    forall|j2: int, k2: int, m4: int|
                        #![trigger funcs@[j2], call_sites@[k2], instrs@[m4]]
                        0 <= j2 < j && 0 <= k2 < call_sites@.len() && 0 <= m4 < instrs@.len()
                            && funcs@[j2].bin == p.cur_bin && funcs@[j2].addr == p.cur_addr
                            && call_sites@[k2].dst_bin == p.cur_bin && call_sites@[k2].dst_addr
                            == funcs@[j2].entry && instrs@[m4].bin == call_sites@[k2].src_bin
                            && instrs@[m4].addr == call_sites@[k2].src_addr ==> out@.contains(
                            tr_retno_concl(trs@[i as int], call_sites@[k2], instrs@[m4].fall),
                        ),
                    forall|mm: int|
                        0 <= mm < out@.len() ==> just_trace_ret_notarget(
                            trs@,
                            funcs@,
                            call_sites@,
                            instrs@,
                            max,
                            #[trigger] out@[mm],
                        ),
            {
                if funcs[j].bin == p.cur_bin && funcs[j].addr == p.cur_addr {
                    let nk = call_sites.len();
                    for k in 0..nk
                        invariant
                            na == trs@.len(),
                            i < na,
                            j < nj,
                            p == trs@[i as int],
                            p.stack == 0,
                            p.len < max,
                            nj == funcs@.len(),
                            nk == call_sites@.len(),
                            crate::schema::instrs_unique(instrs@),
                            0 <= m0 < instrs@.len(),
                            instrs@[m0 as int].bin == p.cur_bin,
                            instrs@[m0 as int].addr == p.cur_addr,
                            instrs@[m0 as int].is_ret,
                            funcs@[j as int].bin == p.cur_bin,
                            funcs@[j as int].addr == p.cur_addr,
                            forall|i2: int, j2: int, k2: int, m3: int, m4: int|
                                #![trigger trs@[i2], funcs@[j2], call_sites@[k2], instrs@[m3], instrs@[m4]]
                                0 <= i2 < i && trs@[i2].len < max && 0 <= j2 < funcs@.len() && 0
                                    <= k2 < call_sites@.len() && 0 <= m3 < instrs@.len() && 0 <= m4
                                    < instrs@.len() && trs@[i2].stack == 0 && funcs@[j2].bin
                                    == trs@[i2].cur_bin && funcs@[j2].addr == trs@[i2].cur_addr
                                    && call_sites@[k2].dst_bin == trs@[i2].cur_bin
                                    && call_sites@[k2].dst_addr == funcs@[j2].entry
                                    && instrs@[m3].bin == trs@[i2].cur_bin && instrs@[m3].addr
                                    == trs@[i2].cur_addr && instrs@[m3].is_ret && instrs@[m4].bin
                                    == call_sites@[k2].src_bin && instrs@[m4].addr
                                    == call_sites@[k2].src_addr ==> out@.contains(
                                    tr_retno_concl(trs@[i2], call_sites@[k2], instrs@[m4].fall),
                                ),
                            forall|j2: int, k2: int, m4: int|
                                #![trigger funcs@[j2], call_sites@[k2], instrs@[m4]]
                                0 <= j2 < j && 0 <= k2 < call_sites@.len() && 0 <= m4
                                    < instrs@.len() && funcs@[j2].bin == p.cur_bin
                                    && funcs@[j2].addr == p.cur_addr && call_sites@[k2].dst_bin
                                    == p.cur_bin && call_sites@[k2].dst_addr == funcs@[j2].entry
                                    && instrs@[m4].bin == call_sites@[k2].src_bin
                                    && instrs@[m4].addr == call_sites@[k2].src_addr
                                    ==> out@.contains(
                                    tr_retno_concl(trs@[i as int], call_sites@[k2], instrs@[m4].fall),
                                ),
                            forall|k2: int, m4: int|
                                #![trigger call_sites@[k2], instrs@[m4]]
                                0 <= k2 < k && 0 <= m4 < instrs@.len() && call_sites@[k2].dst_bin
                                    == p.cur_bin && call_sites@[k2].dst_addr
                                    == funcs@[j as int].entry && instrs@[m4].bin
                                    == call_sites@[k2].src_bin && instrs@[m4].addr
                                    == call_sites@[k2].src_addr ==> out@.contains(
                                    tr_retno_concl(trs@[i as int], call_sites@[k2], instrs@[m4].fall),
                                ),
                            forall|mm: int|
                                0 <= mm < out@.len() ==> just_trace_ret_notarget(
                                    trs@,
                                    funcs@,
                                    call_sites@,
                                    instrs@,
                                    max,
                                    #[trigger] out@[mm],
                                ),
                    {
                        if call_sites[k].dst_bin == p.cur_bin && call_sites[k].dst_addr
                            == funcs[j].entry {
                            match find_instr(instrs, call_sites[k].src_bin, call_sites[k].src_addr) {
                                None => {
                                    proof {
                                        assert forall|m4: int|
                                            0 <= m4 < instrs@.len() implies !((
                                            #[trigger] instrs@[m4]).bin
                                            == call_sites@[k as int].src_bin && instrs@[m4].addr
                                            == call_sites@[k as int].src_addr) by {}
                                    }
                                },
                                Some(mc) => {
                                    let f = PathAliasTrace {
                                        src_bin: p.src_bin,
                                        src_addr: p.src_addr,
                                        alias_set: p.alias_set,
                                        stack: 0,
                                        cur_bin: call_sites[k].src_bin,
                                        cur_addr: instrs[mc].fall,
                                        var: p.var,
                                        freed: p.freed,
                                        len: p.len + 1,
                                    };
                                    let ghost pre = out@;
                                    out.push(f);
                                    proof {
                                        assert(out@.last() == f);
                                        assert(forall|q: int|
                                            0 <= q < pre.len() ==> out@[q] == pre[q]);
                                        assert(f == tr_retno_concl(
                                            trs@[i as int],
                                            call_sites@[k as int],
                                            instrs@[mc as int].fall,
                                        ));
                                        assert(just_trace_ret_notarget(
                                            trs@,
                                            funcs@,
                                            call_sites@,
                                            instrs@,
                                            max,
                                            f,
                                        )) by {
                                            assert((#[trigger] funcs@[j as int]).bin == p.cur_bin);
                                            assert((#[trigger] instrs@[m0 as int]).is_ret);
                                            assert((#[trigger] instrs@[mc as int]).bin
                                                == call_sites@[k as int].src_bin);
                                        }
                                        assert forall|mm: int|
                                            0 <= mm < out@.len() implies just_trace_ret_notarget(
                                            trs@,
                                            funcs@,
                                            call_sites@,
                                            instrs@,
                                            max,
                                            #[trigger] out@[mm],
                                        ) by {
                                            if mm < pre.len() {
                                                assert(out@[mm] == pre[mm]);
                                            } else {
                                                assert(out@[mm] == f);
                                            }
                                        }
                                        assert forall|i2: int, j2: int, k2: int, m3: int, m4: int|
                                            #![trigger trs@[i2], funcs@[j2], call_sites@[k2], instrs@[m3], instrs@[m4]]
                                            0 <= i2 < i && trs@[i2].len < max && 0 <= j2
                                                < funcs@.len() && 0 <= k2 < call_sites@.len() && 0
                                                <= m3 < instrs@.len() && 0 <= m4 < instrs@.len()
                                                && trs@[i2].stack == 0 && funcs@[j2].bin
                                                == trs@[i2].cur_bin && funcs@[j2].addr
                                                == trs@[i2].cur_addr && call_sites@[k2].dst_bin
                                                == trs@[i2].cur_bin && call_sites@[k2].dst_addr
                                                == funcs@[j2].entry && instrs@[m3].bin
                                                == trs@[i2].cur_bin && instrs@[m3].addr
                                                == trs@[i2].cur_addr && instrs@[m3].is_ret
                                                && instrs@[m4].bin == call_sites@[k2].src_bin
                                                && instrs@[m4].addr == call_sites@[k2].src_addr
                                                implies out@.contains(
                                            tr_retno_concl(trs@[i2], call_sites@[k2], instrs@[m4].fall),
                                        ) by {
                                            let g = tr_retno_concl(
                                                trs@[i2],
                                                call_sites@[k2],
                                                instrs@[m4].fall,
                                            );
                                            let q = choose|q: int|
                                                0 <= q < pre.len() && pre[q] == g;
                                            assert(out@[q] == g);
                                        }
                                        assert forall|j2: int, k2: int, m4: int|
                                            #![trigger funcs@[j2], call_sites@[k2], instrs@[m4]]
                                            0 <= j2 < j && 0 <= k2 < call_sites@.len() && 0 <= m4
                                                < instrs@.len() && funcs@[j2].bin == p.cur_bin
                                                && funcs@[j2].addr == p.cur_addr
                                                && call_sites@[k2].dst_bin == p.cur_bin
                                                && call_sites@[k2].dst_addr == funcs@[j2].entry
                                                && instrs@[m4].bin == call_sites@[k2].src_bin
                                                && instrs@[m4].addr == call_sites@[k2].src_addr
                                                implies out@.contains(
                                            tr_retno_concl(trs@[i as int], call_sites@[k2], instrs@[m4].fall),
                                        ) by {
                                            let g = tr_retno_concl(
                                                trs@[i as int],
                                                call_sites@[k2],
                                                instrs@[m4].fall,
                                            );
                                            let q = choose|q: int|
                                                0 <= q < pre.len() && pre[q] == g;
                                            assert(out@[q] == g);
                                        }
                                        assert forall|k2: int, m4: int|
                                            #![trigger call_sites@[k2], instrs@[m4]]
                                            0 <= k2 < k + 1 && 0 <= m4 < instrs@.len()
                                                && call_sites@[k2].dst_bin == p.cur_bin
                                                && call_sites@[k2].dst_addr
                                                == funcs@[j as int].entry && instrs@[m4].bin
                                                == call_sites@[k2].src_bin && instrs@[m4].addr
                                                == call_sites@[k2].src_addr implies out@.contains(
                                            tr_retno_concl(trs@[i as int], call_sites@[k2], instrs@[m4].fall),
                                        ) by {
                                            let g = tr_retno_concl(
                                                trs@[i as int],
                                                call_sites@[k2],
                                                instrs@[m4].fall,
                                            );
                                            if k2 < k {
                                                let q = choose|q: int|
                                                    0 <= q < pre.len() && pre[q] == g;
                                                assert(out@[q] == g);
                                            } else {
                                                assert(m4 == mc);
                                                assert(out@.last() == g);
                                            }
                                        }
                                    }
                                },
                            }
                        }
                    }
                    proof {
                        assert forall|j2: int, k2: int, m4: int|
                            #![trigger funcs@[j2], call_sites@[k2], instrs@[m4]]
                            0 <= j2 < j + 1 && 0 <= k2 < call_sites@.len() && 0 <= m4
                                < instrs@.len() && funcs@[j2].bin == p.cur_bin && funcs@[j2].addr
                                == p.cur_addr && call_sites@[k2].dst_bin == p.cur_bin
                                && call_sites@[k2].dst_addr == funcs@[j2].entry && instrs@[m4].bin
                                == call_sites@[k2].src_bin && instrs@[m4].addr
                                == call_sites@[k2].src_addr implies out@.contains(
                            tr_retno_concl(trs@[i as int], call_sites@[k2], instrs@[m4].fall),
                        ) by {
                            if j2 == j {
                                assert(out@.contains(
                                    tr_retno_concl(trs@[i as int], call_sites@[k2], instrs@[m4].fall),
                                ));
                            }
                        }
                    }
                }
            }
            proof {
                assert forall|j2: int, k2: int, m3: int, m4: int|
                    #![trigger funcs@[j2], call_sites@[k2], instrs@[m3], instrs@[m4]]
                    0 <= j2 < funcs@.len() && 0 <= k2 < call_sites@.len() && 0 <= m3
                        < instrs@.len() && 0 <= m4 < instrs@.len() && funcs@[j2].bin
                        == trs@[i as int].cur_bin && funcs@[j2].addr == trs@[i as int].cur_addr
                        && call_sites@[k2].dst_bin == trs@[i as int].cur_bin
                        && call_sites@[k2].dst_addr == funcs@[j2].entry && instrs@[m3].bin
                        == trs@[i as int].cur_bin && instrs@[m3].addr == trs@[i as int].cur_addr
                        && instrs@[m3].is_ret && instrs@[m4].bin == call_sites@[k2].src_bin
                        && instrs@[m4].addr == call_sites@[k2].src_addr implies out@.contains(
                    tr_retno_concl(trs@[i as int], call_sites@[k2], instrs@[m4].fall),
                ) by {}
            }
        }
    }
    out
}

/// The seed of the trace pass: for each accepted flow, each live state of
/// that allocation at a step-over successor of the allocation site starts
/// a zero-length trace there.
pub open spec fn rule_trace_start(
    flows: Seq<UafFlow>,
    pas: Seq<PathAlias>,
    succ_overs: Seq<SuccOver>,
    out_rel: Seq<PathAliasTrace>,
) -> bool {
    forall|i: int, i2: int, j: int|
        #![trigger flows[i], pas[i2], succ_overs[j]]
        0 <= i < flows.len() && 0 <= i2 < pas.len() && 0 <= j < succ_overs.len()
            && succ_overs[j].bin == flows[i].src_bin && succ_overs[j].addr == flows[i].src_addr
            && pas[i2].src_bin == flows[i].src_bin && pas[i2].src_addr == flows[i].src_addr
            && pas[i2].cur_bin == flows[i].src_bin && pas[i2].cur_addr == succ_overs[j].next
            ==> out_rel.contains(
            PathAliasTrace {
                src_bin: flows[i].src_bin,
                src_addr: flows[i].src_addr,
                alias_set: flows[i].alias_set,
                stack: 0,
                cur_bin: flows[i].src_bin,
                cur_addr: succ_overs[j].next,
                var: pas[i2].var,
                freed: false,
                len: 0,
            },
        )
}

/// A fact justified by `rule_trace_start`.
pub open spec fn just_trace_start(
    flows: Seq<UafFlow>,
    pas: Seq<PathAlias>,
    succ_overs: Seq<SuccOver>,
    f: PathAliasTrace,
) -> bool {
    exists|i: int, i2: int, j: int|
        #![trigger flows[i], pas[i2], succ_overs[j]]
        0 <= i < flows.len() && 0 <= i2 < pas.len() && 0 <= j < succ_overs.len()
            && succ_overs[j].bin == flows[i].src_bin && succ_overs[j].addr == flows[i].src_addr
            && pas[i2].src_bin == flows[i].src_bin && pas[i2].src_addr == flows[i].src_addr
            && pas[i2].cur_bin == flows[i].src_bin && pas[i2].cur_addr == succ_overs[j].next && f
            == (PathAliasTrace {
            src_bin: flows[i].src_bin,
            src_addr: flows[i].src_addr,
            alias_set: flows[i].alias_set,
            stack: 0,
            cur_bin: flows[i].src_bin,
            cur_addr: succ_overs[j].next,
            var: pas[i2].var,
            freed: false,
            len: 0,
        })
}

/// Derives the conclusions of `rule_trace_start`.
pub fn derive_trace_start(
    flows: &Vec<UafFlow>,
    pas: &Vec<PathAlias>,
    succ_overs: &Vec<SuccOver>,
) -> (out: Vec<PathAliasTrace>)
    ensures
        rule_trace_start(flows@, pas@, succ_overs@, out@),
        forall|m: int|
            0 <= m < out@.len() ==> just_trace_start(flows@, pas@, succ_overs@, #[trigger] out@[m]),
{
    let mut out: Vec<PathAliasTrace> = Vec::new();
    let na = flows.len();
    for i in 0..na
        invariant
            na == flows@.len(),
            forall|i1: int, i3: int, j2: int|
                #![trigger flows@[i1], pas@[i3], succ_overs@[j2]]
                0 <= i1 < i && 0 <= i3 < pas@.len() && 0 <= j2 < succ_overs@.len()
                    && succ_overs@[j2].bin == flows@[i1].src_bin && succ_overs@[j2].addr
                    == flows@[i1].src_addr && pas@[i3].src_bin == flows@[i1].src_bin
                    && pas@[i3].src_addr == flows@[i1].src_addr && pas@[i3].cur_bin
                    == flows@[i1].src_bin && pas@[i3].cur_addr == succ_overs@[j2].next
                    ==> out@.contains(
                    PathAliasTrace {
                        src_bin: flows@[i1].src_bin,
                        src_addr: flows@[i1].src_addr,
                        alias_set: flows@[i1].alias_set,
                        stack: 0,
                        cur_bin: flows@[i1].src_bin,
                        cur_addr: succ_overs@[j2].next,
                        var: pas@[i3].var,
                        freed: false,
                        len: 0,
                    },
                ),
            forall|m: int|
                0 <= m < out@.len() ==> just_trace_start(
                    flows@,
                    pas@,
                    succ_overs@,
                    #[trigger] out@[m],
                ),
    {
        let nb = pas.len();
        for i2 in 0..nb
            invariant
                na == flows@.len(),
                i < na,
                nb == pas@.len(),
                forall|i1: int, i3: int, j2: int|
                    #![trigger flows@[i1], pas@[i3], succ_overs@[j2]]
                    0 <= i1 < i && 0 <= i3 < pas@.len() && 0 <= j2 < succ_overs@.len()
                        && succ_overs@[j2].bin == flows@[i1].src_bin && succ_overs@[j2].addr
                        == flows@[i1].src_addr && pas@[i3].src_bin == flows@[i1].src_bin
                        && pas@[i3].src_addr == flows@[i1].src_addr && pas@[i3].cur_bin
                        == flows@[i1].src_bin && pas@[i3].cur_addr == succ_overs@[j2].next
                        ==> out@.contains(
                        PathAliasTrace {
                            src_bin: flows@[i1].src_bin,
                            src_addr: flows@[i1].src_addr,
                            alias_set: flows@[i1].alias_set,
                            stack: 0,
                            cur_bin: flows@[i1].src_bin,
                            cur_addr: succ_overs@[j2].next,
                            var: pas@[i3].var,
                            freed: false,
                            len: 0,
                        },
                    ),
                forall|i3: int, j2: int|
                    #![trigger pas@[i3], succ_overs@[j2]]
                    0 <= i3 < i2 && 0 <= j2 < succ_overs@.len() && succ_overs@[j2].bin
                        == flows@[i as int].src_bin && succ_overs@[j2].addr
                        == flows@[i as int].src_addr && pas@[i3].src_bin == flows@[i as int].src_bin
                        && pas@[i3].src_addr == flows@[i as int].src_addr && pas@[i3].cur_bin
                        == flows@[i as int].src_bin && pas@[i3].cur_addr == succ_overs@[j2].next
                        ==> out@.contains(
                        PathAliasTrace {
                            src_bin: flows@[i as int].src_bin,
                            src_addr: flows@[i as int].src_addr,
                            alias_set: flows@[i as int].alias_set,
                            stack: 0,
                            cur_bin: flows@[i as int].src_bin,
                            cur_addr: succ_overs@[j2].next,
                            var: pas@[i3].var,
                            freed: false,
                            len: 0,
                        },
                    ),
                forall|m: int|
                    0 <= m < out@.len() ==> just_trace_start(
                        flows@,
                        pas@,
                        succ_overs@,
                        #[trigger] out@[m],
                    ),
        {
            if pas[i2].src_bin == flows[i].src_bin && pas[i2].src_addr == flows[i].src_addr
                && pas[i2].cur_bin == flows[i].src_bin {
                let nc = succ_overs.len();
                for j in 0..nc
                    invariant
                        na == flows@.len(),
                        i < na,
                        i2 < nb,
                        nb == pas@.len(),
                        nc == succ_overs@.len(),
                        pas@[i2 as int].src_bin == flows@[i as int].src_bin,
                        pas@[i2 as int].src_addr == flows@[i as int].src_addr,
                        pas@[i2 as int].cur_bin == flows@[i as int].src_bin,
                        forall|i1: int, i3: int, j2: int|
                            #![trigger flows@[i1], pas@[i3], succ_overs@[j2]]
                            0 <= i1 < i && 0 <= i3 < pas@.len() && 0 <= j2 < succ_overs@.len()
                                && succ_overs@[j2].bin == flows@[i1].src_bin && succ_overs@[j2].addr
                                == flows@[i1].src_addr && pas@[i3].src_bin == flows@[i1].src_bin
                                && pas@[i3].src_addr == flows@[i1].src_addr && pas@[i3].cur_bin
                                == flows@[i1].src_bin && pas@[i3].cur_addr == succ_overs@[j2].next
                                ==> out@.contains(
                                PathAliasTrace {
                                    src_bin: flows@[i1].src_bin,
                                    src_addr: flows@[i1].src_addr,
                                    alias_set: flows@[i1].alias_set,
                                    stack: 0,
                                    cur_bin: flows@[i1].src_bin,
                                    cur_addr: succ_overs@[j2].next,
                                    var: pas@[i3].var,
                                    freed: false,
                                    len: 0,
                                },
                            ),
                        forall|i3: int, j2: int|
                            #![trigger pas@[i3], succ_overs@[j2]]
                            0 <= i3 < i2 && 0 <= j2 < succ_overs@.len() && succ_overs@[j2].bin
                                == flows@[i as int].src_bin && succ_overs@[j2].addr
                                == flows@[i as int].src_addr && pas@[i3].src_bin
                                == flows@[i as int].src_bin && pas@[i3].src_addr
                                == flows@[i as int].src_addr && pas@[i3].cur_bin
                                == flows@[i as int].src_bin && pas@[i3].cur_addr
                                == succ_overs@[j2].next ==> out@.contains(
                                PathAliasTrace {
                                    src_bin: flows@[i as int].src_bin,
                                    src_addr: flows@[i as int].src_addr,
                                    alias_set: flows@[i as int].alias_set,
                                    stack: 0,
                                    cur_bin: flows@[i as int].src_bin,
                                    cur_addr: succ_overs@[j2].next,
                                    var: pas@[i3].var,
                                    freed: false,
                                    len: 0,
                                },
                            ),
                        forall|j2: int|
                            0 <= j2 < j && (#[trigger] succ_overs@[j2]).bin
                                == flows@[i as int].src_bin && succ_overs@[j2].addr
                                == flows@[i as int].src_addr && pas@[i2 as int].cur_addr
                                == succ_overs@[j2].next ==> out@.contains(
                                PathAliasTrace {
                                    src_bin: flows@[i as int].src_bin,
                                    src_addr: flows@[i as int].src_addr,
                                    alias_set: flows@[i as int].alias_set,
                                    stack: 0,
                                    cur_bin: flows@[i as int].src_bin,
                                    cur_addr: succ_overs@[j2].next,
                                    var: pas@[i2 as int].var,
                                    freed: false,
                                    len: 0,
                                },
                            ),
                        forall|m: int|
                            0 <= m < out@.len() ==> just_trace_start(
                                flows@,
                                pas@,
                                succ_overs@,
                                #[trigger] out@[m],
                            ),
                {
                    if succ_overs[j].bin == flows[i].src_bin && succ_overs[j].addr
                        == flows[i].src_addr && pas[i2].cur_addr == succ_overs[j].next {
                        let f = PathAliasTrace {
                            src_bin: flows[i].src_bin,
                            src_addr: flows[i].src_addr,
                            alias_set: flows[i].alias_set,
                            stack: 0,
                            cur_bin: flows[i].src_bin,
                            cur_addr: succ_overs[j].next,
                            var: pas[i2].var,
                            freed: false,
                            len: 0,
                        };
                        let ghost pre = out@;
                        out.push(f);
                        proof {
                            assert(out@.last() == f);
                            assert(forall|q: int| 0 <= q < pre.len() ==> out@[q] == pre[q]);
                            assert(just_trace_start(flows@, pas@, succ_overs@, f)) by {
                                assert((#[trigger] succ_overs@[j as int]).bin
                                    == flows@[i as int].src_bin);
                            }
                            assert forall|m2: int|
                                0 <= m2 < out@.len() implies just_trace_start(
                                flows@,
                                pas@,
                                succ_overs@,
                                #[trigger] out@[m2],
                            ) by {
                                if m2 < pre.len() {
                                    assert(out@[m2] == pre[m2]);
                                } else {
                                    assert(out@[m2] == f);
                                }
                            }
                            assert forall|i1: int, i3: int, j2: int|
                                #![trigger flows@[i1], pas@[i3], succ_overs@[j2]]
                                0 <= i1 < i && 0 <= i3 < pas@.len() && 0 <= j2 < succ_overs@.len()
                                    && succ_overs@[j2].bin == flows@[i1].src_bin
                                    && succ_overs@[j2].addr == flows@[i1].src_addr
                                    && pas@[i3].src_bin == flows@[i1].src_bin && pas@[i3].src_addr
                                    == flows@[i1].src_addr && pas@[i3].cur_bin
                                    == flows@[i1].src_bin && pas@[i3].cur_addr
                                    == succ_overs@[j2].next implies out@.contains(
                                PathAliasTrace {
                                    src_bin: flows@[i1].src_bin,
                                    src_addr: flows@[i1].src_addr,
                                    alias_set: flows@[i1].alias_set,
                                    stack: 0,
                                    cur_bin: flows@[i1].src_bin,
                                    cur_addr: succ_overs@[j2].next,
                                    var: pas@[i3].var,
                                    freed: false,
                                    len: 0,
                                },
                            ) by {
                                let g = PathAliasTrace {
                                    src_bin: flows@[i1].src_bin,
                                    src_addr: flows@[i1].src_addr,
                                    alias_set: flows@[i1].alias_set,
                                    stack: 0,
                                    cur_bin: flows@[i1].src_bin,
                                    cur_addr: succ_overs@[j2].next,
                                    var: pas@[i3].var,
                                    freed: false,
                                    len: 0,
                                };
                                let q = choose|q: int| 0 <= q < pre.len() && pre[q] == g;
                                assert(out@[q] == g);
                            }
                            assert forall|i3: int, j2: int|
                                #![trigger pas@[i3], succ_overs@[j2]]
                                0 <= i3 < i2 && 0 <= j2 < succ_overs@.len() && succ_overs@[j2].bin
                                    == flows@[i as int].src_bin && succ_overs@[j2].addr
                                    == flows@[i as int].src_addr && pas@[i3].src_bin
                                    == flows@[i as int].src_bin && pas@[i3].src_addr
                                    == flows@[i as int].src_addr && pas@[i3].cur_bin
                                    == flows@[i as int].src_bin && pas@[i3].cur_addr
                                    == succ_overs@[j2].next implies out@.contains(
                                PathAliasTrace {
                                    src_bin: flows@[i as int].src_bin,
                                    src_addr: flows@[i as int].src_addr,
                                    alias_set: flows@[i as int].alias_set,
                                    stack: 0,
                                    cur_bin: flows@[i as int].src_bin,
                                    cur_addr: succ_overs@[j2].next,
                                    var: pas@[i3].var,
                                    freed: false,
                                    len: 0,
                                },
                            ) by {
                                let g = PathAliasTrace {
                                    src_bin: flows@[i as int].src_bin,
                                    src_addr: flows@[i as int].src_addr,
                                    alias_set: flows@[i as int].alias_set,
                                    stack: 0,
                                    cur_bin: flows@[i as int].src_bin,
                                    cur_addr: succ_overs@[j2].next,
                                    var: pas@[i3].var,
                                    freed: false,
                                    len: 0,
                                };
                                let q = choose|q: int| 0 <= q < pre.len() && pre[q] == g;
                                assert(out@[q] == g);
                            }
                            assert forall|j2: int|
                                0 <= j2 < j + 1 && (#[trigger] succ_overs@[j2]).bin
                                    == flows@[i as int].src_bin && succ_overs@[j2].addr
                                    == flows@[i as int].src_addr && pas@[i2 as int].cur_addr
                                    == succ_overs@[j2].next implies out@.contains(
                                PathAliasTrace {
                                    src_bin: flows@[i as int].src_bin,
                                    src_addr: flows@[i as int].src_addr,
                                    alias_set: flows@[i as int].alias_set,
                                    stack: 0,
                                    cur_bin: flows@[i as int].src_bin,
                                    cur_addr: succ_overs@[j2].next,
                                    var: pas@[i2 as int].var,
                                    freed: false,
                                    len: 0,
                                },
                            ) by {
                                let g = PathAliasTrace {
                                    src_bin: flows@[i as int].src_bin,
                                    src_addr: flows@[i as int].src_addr,
                                    alias_set: flows@[i as int].alias_set,
                                    stack: 0,
                                    cur_bin: flows@[i as int].src_bin,
                                    cur_addr: succ_overs@[j2].next,
                                    var: pas@[i2 as int].var,
                                    freed: false,
                                    len: 0,
                                };
                                if j2 < j {
                                    let q = choose|q: int| 0 <= q < pre.len() && pre[q] == g;
                                    assert(out@[q] == g);
                                } else {
                                    assert(out@.last() == g);
                                }
                            }
                        }
                    }
                }
                proof {
                    assert forall|i3: int, j2: int|
                        #![trigger pas@[i3], succ_overs@[j2]]
                        0 <= i3 < i2 + 1 && 0 <= j2 < succ_overs@.len() && succ_overs@[j2].bin
                            == flows@[i as int].src_bin && succ_overs@[j2].addr
                            == flows@[i as int].src_addr && pas@[i3].src_bin
                            == flows@[i as int].src_bin && pas@[i3].src_addr
                            == flows@[i as int].src_addr && pas@[i3].cur_bin
                            == flows@[i as int].src_bin && pas@[i3].cur_addr
                            == succ_overs@[j2].next implies out@.contains(
                        PathAliasTrace {
                            src_bin: flows@[i as int].src_bin,
                            src_addr: flows@[i as int].src_addr,
                            alias_set: flows@[i as int].alias_set,
                            stack: 0,
                            cur_bin: flows@[i as int].src_bin,
                            cur_addr: succ_overs@[j2].next,
                            var: pas@[i3].var,
                            freed: false,
                            len: 0,
                        },
                    ) by {
                        if i3 == i2 {
                            assert(out@.contains(
                                PathAliasTrace {
                                    src_bin: flows@[i as int].src_bin,
                                    src_addr: flows@[i as int].src_addr,
                                    alias_set: flows@[i as int].alias_set,
                                    stack: 0,
                                    cur_bin: flows@[i as int].src_bin,
                                    cur_addr: succ_overs@[j2].next,
                                    var: pas@[i2 as int].var,
                                    freed: false,
                                    len: 0,
                                },
                            ));
                        }
                    }
                }
            }
        }
    }
    out
}


/// A frame with this parent, binary and return site is interned.
pub open spec fn has_frame(s: Seq<StackFact>, prev: u64, bin: u64, ret: u64) -> bool {
    exists|sid: int|
        0 <= sid < s.len() && (#[trigger] s[sid]).prev == prev && s[sid].bin == bin && s[sid].ret
            == ret
}

/// At a call site reached by a live state whose context is shallow
/// enough, the context extended by the caller's return site is interned.
pub open spec fn rule_stack_push(
    pas: Seq<PathAlias>,
    instrs: Seq<Instr>,
    call_sites: Seq<CallSite>,
    stacks_in: Seq<StackFact>,
    stacks_out: Seq<StackFact>,
) -> bool {
    forall|i: int, k: int, j: int|
        #![trigger pas[i], instrs[k], call_sites[j]]
        0 <= i < pas.len() && 0 <= k < instrs.len() && 0 <= j < call_sites.len() && instrs[k].bin
            == pas[i].cur_bin && instrs[k].addr == pas[i].cur_addr && call_sites[j].src_bin
            == pas[i].cur_bin && call_sites[j].src_addr == pas[i].cur_addr && pas[i].stack
            < stacks_in.len() && stacks_in[pas[i].stack as int].len < 5 ==> has_frame(
            stacks_out,
            pas[i].stack,
            pas[i].cur_bin,
            instrs[k].fall,
        )
}

/// A frame justified by `rule_stack_push`.
pub open spec fn just_stack_push(
    pas: Seq<PathAlias>,
    instrs: Seq<Instr>,
    call_sites: Seq<CallSite>,
    stacks_in: Seq<StackFact>,
    f: StackFact,
) -> bool {
    exists|i: int, k: int, j: int|
        #![trigger pas[i], instrs[k], call_sites[j]]
        0 <= i < pas.len() && 0 <= k < instrs.len() && 0 <= j < call_sites.len() && instrs[k].bin
            == pas[i].cur_bin && instrs[k].addr == pas[i].cur_addr && call_sites[j].src_bin
            == pas[i].cur_bin && call_sites[j].src_addr == pas[i].cur_addr && pas[i].stack
            < stacks_in.len() && stacks_in[pas[i].stack as int].len < 5 && f.prev == pas[i].stack
            && f.bin == pas[i].cur_bin && f.ret == instrs[k].fall
}

/// Derives the frames `rule_stack_push` asks for.
pub fn derive_stack_push(
    pas: &Vec<PathAlias>,
    instrs: &Vec<Instr>,
    call_sites: &Vec<CallSite>,
    stacks: &Vec<StackFact>,
) -> (out: Vec<StackFact>)
    requires
        crate::schema::instrs_unique(instrs@),
        forall|i: int| 0 <= i < pas@.len() ==> (#[trigger] pas@[i]).stack < stacks@.len(),
    ensures
        rule_stack_push(pas@, instrs@, call_sites@, stacks@, out@),
        forall|m: int|
            0 <= m < out@.len() ==> just_stack_push(
                pas@,
                instrs@,
                call_sites@,
                stacks@,
                #[trigger] out@[m],
            ),
{
    let mut out: Vec<StackFact> = Vec::new();
    let na = pas.len();
    for i in 0..na
        invariant
            na == pas@.len(),
            crate::schema::instrs_unique(instrs@),
            forall|i3: int| 0 <= i3 < pas@.len() ==> (#[trigger] pas@[i3]).stack < stacks@.len(),
            forall|i2: int, k2: int, j2: int|
                #![trigger pas@[i2], instrs@[k2], call_sites@[j2]]
                0 <= i2 < i && 0 <= k2 < instrs@.len() && 0 <= j2 < call_sites@.len()
                    && instrs@[k2].bin == pas@[i2].cur_bin && instrs@[k2].addr == pas@[i2].cur_addr
                    && call_sites@[j2].src_bin == pas@[i2].cur_bin && call_sites@[j2].src_addr
                    == pas@[i2].cur_addr && pas@[i2].stack < stacks@.len()
                    && stacks@[pas@[i2].stack as int].len < 5 ==> has_frame(
                    out@,
                    pas@[i2].stack,
                    pas@[i2].cur_bin,
                    instrs@[k2].fall,
                ),
            forall|m: int|
                0 <= m < out@.len() ==> just_stack_push(
                    pas@,
                    instrs@,
                    call_sites@,
                    stacks@,
                    #[trigger] out@[m],
                ),
    {
        let p = pas[i];
        let nstacks = stacks.len();
        proof {
            assert(nstacks == stacks@.len());
            assert(pas@[i as int].stack < stacks@.len());
        }
        #[verifier::truncate]
        let sid = p.stack as usize;
        proof {
            assert(sid as int == p.stack as int);
        }
        let depth = stacks[sid].len;
        if depth < 5 {
            match find_instr(instrs, p.cur_bin, p.cur_addr) {
                None => {
                    proof {
                        assert forall|k2: int|
                            0 <= k2 < instrs@.len() implies !((#[trigger] instrs@[k2]).bin
                            == pas@[i as int].cur_bin && instrs@[k2].addr
                            == pas@[i as int].cur_addr) by {}
                    }
                },
                Some(k0) => {
                    let fall = instrs[k0].fall;
                    let mut seen = false;
                    let nj = call_sites.len();
                    for j in 0..nj
                        invariant
                            nj == call_sites@.len(),
                            seen == (exists|j2: int|
                                0 <= j2 < j && (#[trigger] call_sites@[j2]).src_bin == p.cur_bin
                                    && call_sites@[j2].src_addr == p.cur_addr),
                    {
                        if call_sites[j].src_bin == p.cur_bin && call_sites[j].src_addr
                            == p.cur_addr {
                            proof {
                                assert((#[trigger] call_sites@[j as int]).src_bin == p.cur_bin
                                    && call_sites@[j as int].src_addr == p.cur_addr);
                            }
                            seen = true;
                        }
                    }
                    if seen {
                        let f = StackFact { prev: p.stack, bin: p.cur_bin, ret: fall, len: depth + 1 };
                        let ghost pre = out@;
                        out.push(f);
                        proof {
                            let last = out@.len() - 1;
                            assert(out@[last] == f);
                            assert(forall|q: int| 0 <= q < pre.len() ==> out@[q] == pre[q]);
                            let j0 = choose|j2: int|
                                0 <= j2 < call_sites@.len() && (#[trigger] call_sites@[j2]).src_bin
                                    == p.cur_bin && call_sites@[j2].src_addr == p.cur_addr;
                            assert(just_stack_push(pas@, instrs@, call_sites@, stacks@, f)) by {
                                assert((#[trigger] pas@[i as int]).stack == p.stack);
                                assert((#[trigger] instrs@[k0 as int]).fall == fall);
                                assert((#[trigger] call_sites@[j0]).src_bin == p.cur_bin);
                            }
                            assert forall|m2: int|
                                0 <= m2 < out@.len() implies just_stack_push(
                                pas@,
                                instrs@,
                                call_sites@,
                                stacks@,
                                #[trigger] out@[m2],
                            ) by {
                                if m2 < pre.len() {
                                    assert(out@[m2] == pre[m2]);
                                } else {
                                    assert(out@[m2] == f);
                                }
                            }
                            assert forall|i2: int, k2: int, j2: int|
                                #![trigger pas@[i2], instrs@[k2], call_sites@[j2]]
                                0 <= i2 < i + 1 && 0 <= k2 < instrs@.len() && 0 <= j2
                                    < call_sites@.len() && instrs@[k2].bin == pas@[i2].cur_bin
                                    && instrs@[k2].addr == pas@[i2].cur_addr
                                    && call_sites@[j2].src_bin == pas@[i2].cur_bin
                                    && call_sites@[j2].src_addr == pas@[i2].cur_addr
                                    && pas@[i2].stack < stacks@.len()
                                    && stacks@[pas@[i2].stack as int].len < 5 implies has_frame(
                                out@,
                                pas@[i2].stack,
                                pas@[i2].cur_bin,
                                instrs@[k2].fall,
                            ) by {
                                if i2 < i {
                                    let q = choose|q: int|
                                        0 <= q < pre.len() && (#[trigger] pre[q]).prev
                                            == pas@[i2].stack && pre[q].bin == pas@[i2].cur_bin
                                            && pre[q].ret == instrs@[k2].fall;
                                    assert((#[trigger] out@[q]).prev == pas@[i2].stack);
                                } else {
                                    assert(k2 == k0);
                                    assert((#[trigger] out@[last]).prev == pas@[i2].stack);
                                }
                            }
                        }
                    } else {
                        proof {
                            assert forall|k2: int, j2: int|
                                #![trigger instrs@[k2], call_sites@[j2]]
                                0 <= k2 < instrs@.len() && 0 <= j2 < call_sites@.len()
                                    && instrs@[k2].bin == pas@[i as int].cur_bin && instrs@[k2].addr
                                    == pas@[i as int].cur_addr && call_sites@[j2].src_bin
                                    == pas@[i as int].cur_bin && call_sites@[j2].src_addr
                                    == pas@[i as int].cur_addr implies false by {}
                        }
                    }
                },
            }
        } else {
            proof {
                assert(stacks@[pas@[i as int].stack as int].len >= 5);
            }
        }
    }
    out
}

/// Interns a batch of frame records: a frame already present keeps its
/// id; a fresh frame is appended under the next id with its parent's
/// depth plus one. The table stays a well-formed context tree.
#[verifier::rlimit(60)]
pub fn intern_stacks(rel: &mut Vec<StackFact>, new: &Vec<StackFact>) -> (ch: bool)
    requires
        crate::schema::stacks_wf(old(rel)@),
        forall|k: int|
            0 <= k < new@.len() ==> (#[trigger] new@[k]).prev < old(rel)@.len() && old(rel)@[new@[k].prev as int].len
                < 5,
    ensures
        crate::schema::stacks_wf(final(rel)@),
        old(rel)@.is_prefix_of(final(rel)@),
        forall|k: int|
            0 <= k < new@.len() ==> has_frame(
                final(rel)@,
                (#[trigger] new@[k]).prev,
                new@[k].bin,
                new@[k].ret,
            ),
        forall|sid: int|
            0 <= sid < final(rel)@.len() ==> sid < old(rel)@.len() || exists|k: int|
                0 <= k < new@.len() && (#[trigger] new@[k]).prev == (#[trigger] final(rel)@[sid]).prev && new@[k].bin == final(rel)@[sid].bin && new@[k].ret == final(rel)@[sid].ret,
        !ch ==> final(rel)@ == old(rel)@,
        (forall|k: int|
            0 <= k < new@.len() ==> has_frame(
                old(rel)@,
                (#[trigger] new@[k]).prev,
                new@[k].bin,
                new@[k].ret,
            )) ==> !ch,
{
    let mut ch = false;
    let ghost base = old(rel)@;
    let n = new.len();
    for idx in 0..n
        invariant
            n == new@.len(),
            base == old(rel)@,
            crate::schema::stacks_wf(rel@),
            base.is_prefix_of(rel@),
            forall|k: int|
                0 <= k < new@.len() ==> (#[trigger] new@[k]).prev < base.len()
                    && base[new@[k].prev as int].len < 5,
            forall|k: int|
                0 <= k < idx ==> has_frame(rel@, (#[trigger] new@[k]).prev, new@[k].bin, new@[k].ret),
            forall|sid: int|
                0 <= sid < rel@.len() ==> sid < base.len() || exists|k: int|
                    0 <= k < new@.len() && (#[trigger] new@[k]).prev == (#[trigger] rel@[sid]).prev
                        && new@[k].bin == rel@[sid].bin && new@[k].ret == rel@[sid].ret,
            !ch ==> rel@ == base,
            ch ==> exists|k: int|
                0 <= k < idx && !has_frame(base, (#[trigger] new@[k]).prev, new@[k].bin, new@[k].ret),
    {
        let f = new[idx];
        match find_stack(rel, f.prev, f.bin, f.ret) {
            Some(sid) => {
                proof {
                    assert(has_frame(rel@, new@[idx as int].prev, new@[idx as int].bin, new@[idx as int].ret)) by {
                        assert((#[trigger] rel@[sid as int]).prev == f.prev);
                    }
                }
            },
            None => {
                let ghost pre = rel@;
                proof {
                    assert(new@[idx as int].prev < base.len());
                    assert(base[f.prev as int] == rel@[f.prev as int]);
                }
                let prevlen = rel.len();
                proof {
                    assert(prevlen == rel@.len());
                    assert(f.prev < base.len() <= rel@.len());
                }
                #[verifier::truncate]
                let pid = f.prev as usize;
                proof {
                    assert(pid as int == f.prev as int);
                }
                let depth = rel[pid].len;
                let g = StackFact { prev: f.prev, bin: f.bin, ret: f.ret, len: depth + 1 };
                rel.push(g);
                ch = true;
                proof {
                    let last = rel@.len() - 1;
                    assert(rel@[last] == g);
                    assert(forall|q: int| 0 <= q < pre.len() ==> rel@[q] == pre[q]);
                    assert(has_frame(rel@, new@[idx as int].prev, new@[idx as int].bin, new@[idx as int].ret)) by {
                        assert((#[trigger] rel@[last]).prev == f.prev);
                    }
                    assert forall|k: int| 0 <= k < idx + 1 implies has_frame(
                        rel@,
                        (#[trigger] new@[k]).prev,
                        new@[k].bin,
                        new@[k].ret,
                    ) by {
                        if k < idx {
                            let q = choose|q: int|
                                0 <= q < pre.len() && (#[trigger] pre[q]).prev == new@[k].prev
                                    && pre[q].bin == new@[k].bin && pre[q].ret == new@[k].ret;
                            assert((#[trigger] rel@[q]).prev == new@[k].prev);
                        }
                    }
                    assert forall|sid: int|
                        0 <= sid < rel@.len() implies sid < base.len() || exists|k: int|
                        0 <= k < new@.len() && (#[trigger] new@[k]).prev == (#[trigger] rel@[sid]).prev
                            && new@[k].bin == rel@[sid].bin && new@[k].ret == rel@[sid].ret by {
                        if sid < pre.len() {
                            if sid >= base.len() {
                                let k = choose|k: int|
                                    0 <= k < new@.len() && (#[trigger] new@[k]).prev == pre[sid].prev
                                        && new@[k].bin == pre[sid].bin && new@[k].ret
                                        == pre[sid].ret;
                                assert(new@[k].prev == rel@[sid].prev);
                            }
                        } else {
                            assert(new@[idx as int].prev == rel@[sid].prev && new@[idx as int].bin
                                == rel@[sid].bin && new@[idx as int].ret == rel@[sid].ret);
                        }
                    }
                    assert(crate::schema::stacks_wf(rel@)) by {
                        assert(rel@[0] == pre[0]);
                        assert(rel@[last].prev < last);
                        assert(rel@[last].len == rel@[rel@[last].prev as int].len + 1);
                        assert(rel@[last].len <= 5);
                        assert forall|q: int, q2: int|
                            0 <= q < rel@.len() && 0 <= q2 < rel@.len() && (#[trigger] rel@[q]).prev
                                == (#[trigger] rel@[q2]).prev && rel@[q].bin == rel@[q2].bin
                                && rel@[q].ret == rel@[q2].ret implies q == q2 by {
                            if q < last && q2 == last {
                                assert(!((#[trigger] pre[q]).prev == f.prev && pre[q].bin == f.bin
                                    && pre[q].ret == f.ret));
                            } else if q == last && q2 < last {
                                assert(!((#[trigger] pre[q2]).prev == f.prev && pre[q2].bin == f.bin
                                    && pre[q2].ret == f.ret));
                            } else if q < last && q2 < last {
                                assert(pre[q] == rel@[q] && pre[q2] == rel@[q2]);
                            }
                        }
                    }
                    if has_frame(base, new@[idx as int].prev, new@[idx as int].bin, new@[idx as int].ret) {
                        let w = choose|w: int|
                            0 <= w < base.len() && (#[trigger] base[w]).prev == new@[idx as int].prev
                                && base[w].bin == new@[idx as int].bin && base[w].ret
                                == new@[idx as int].ret;
                        assert((#[trigger] pre[w]).prev == f.prev && pre[w].bin == f.bin
                            && pre[w].ret == f.ret);
                        assert(false);
                    }
                }
            },
        }
    }
    proof {
        if ch {
            let k = choose|k: int|
                0 <= k < n && !has_frame(base, (#[trigger] new@[k]).prev, new@[k].bin, new@[k].ret);
        }
    }
    ch
}

// ---------------------------------------------------------------------------
// Closure, rounds and the staged scheduler
// ---------------------------------------------------------------------------

/// `chop_check_spec` yields only well-formed chops.
pub proof fn lemma_chop_check_wf(c: Chop, f: u64)
    requires
        chop_wf(c),
    ensures
        forall|i: int|
            0 <= i < crate::chop::chop_check_spec(c, f).len() ==> chop_wf(
                #[trigger] crate::chop::chop_check_spec(c, f)[i],
            ),
{
    if !crate::chop::chop_view(c).contains(f) && c.count < 3 {
        crate::chop::lemma_chop_insert_members(c, f);
    }
}

/// Closure of `rule_flow_start` against the live store: conclusions are
/// present at least as strongly as derived.
pub open spec fn closed_flow_start(malloc_calls: Seq<CallAddr>, instrs: Seq<Instr>, pas: Seq<PathAlias>) -> bool {
    forall|i: int, j: int|
        #![trigger malloc_calls[i], instrs[j]]
        0 <= i < malloc_calls.len() && 0 <= j < instrs.len() && instrs[j].bin
            == malloc_calls[i].bin && instrs[j].addr == malloc_calls[i].addr ==> has_pa(
            pas,
            PathAlias {
                src_bin: malloc_calls[i].bin,
                src_addr: malloc_calls[i].addr,
                alias_set: 0,
                stack: 0,
                chop: empty_chop(),
                cur_bin: malloc_calls[i].bin,
                cur_addr: instrs[j].fall,
                var: crate::var::spec_reg(crate::var::REG_RET),
                freed: false,
            },
        )
}

/// Closure of `rule_flow_start_heap` against the live store.
pub open spec fn closed_flow_start_heap(instrs: Seq<Instr>, pas: Seq<PathAlias>) -> bool {
    forall|i: int, k: int, v: int|
        #![trigger heap_seed_var(instrs[i], k, v)]
        0 <= i < instrs.len() && 0 <= k < crate::analyses::heap_init_spec(instrs[i].sema).len()
            && 0 <= v < crate::analyses::heap_init_spec(instrs[i].sema)[k].1.len() ==> has_pa(
            pas,
            heap_seed_concl(instrs[i], k, v),
        )
}

/// Closure of `rule_flow_free` against the live store.
pub open spec fn closed_flow_free(pas: Seq<PathAlias>, free_calls: Seq<CallAddr>, instrs: Seq<Instr>, out_pas: Seq<PathAlias>) -> bool {
    forall|i: int, k: int|
        #![trigger pas[i], instrs[k]]
        0 <= i < pas.len() && 0 <= k < instrs.len() && free_calls.contains(
            CallAddr { bin: pas[i].cur_bin, addr: pas[i].cur_addr },
        ) && pa_companion(pas, pas[i]) && instrs[k].bin == pas[i].cur_bin && instrs[k].addr
            == pas[i].cur_addr ==> has_pa(out_pas, free_concl(pas[i], instrs[k].fall))
}

/// Closure of `rule_flow_prop` against the live store.
pub open spec fn closed_flow_prop(pas: Seq<PathAlias>, succs: Seq<SuccFact>, instrs: Seq<Instr>, out_pas: Seq<PathAlias>) -> bool {
    forall|i: int, j: int, k: int, v: int|
        #![trigger pas[i], succs[j], xfer_of(instrs[k], pas[i].var)[v]]
        0 <= i < pas.len() && 0 <= j < succs.len() && 0 <= k < instrs.len() && succs[j].bin
            == pas[i].cur_bin && succs[j].src == pas[i].cur_addr && !succs[j].is_call
            && instrs[k].bin == pas[i].cur_bin && instrs[k].addr == pas[i].cur_addr && 0 <= v
            < xfer_of(instrs[k], pas[i].var).len() ==> has_pa(
            out_pas,
            prop_concl(pas[i], succs[j].sink, xfer_of(instrs[k], pas[i].var)[v]),
        )
}

/// Closure of `rule_flow_skip` against the live store.
pub open spec fn closed_flow_skip(pas: Seq<PathAlias>, skip_funcs: Seq<CallAddr>, instrs: Seq<Instr>, out_pas: Seq<PathAlias>) -> bool {
    forall|i: int, k: int, v: int|
        #![trigger pas[i], xfer_of(instrs[k], pas[i].var)[v]]
        0 <= i < pas.len() && 0 <= k < instrs.len() && skip_funcs.contains(
            CallAddr { bin: pas[i].cur_bin, addr: pas[i].cur_addr },
        ) && instrs[k].bin == pas[i].cur_bin && instrs[k].addr == pas[i].cur_addr && 0 <= v
            < xfer_of(instrs[k], pas[i].var).len() && xfer_of(instrs[k], pas[i].var)[v]
            != crate::var::spec_reg(crate::var::REG_RET) ==> has_pa(
            out_pas,
            prop_concl(pas[i], instrs[k].fall, xfer_of(instrs[k], pas[i].var)[v]),
        )
}

/// Closure of `rule_flow_call` against the live store.
pub open spec fn closed_flow_call(
    pas: Seq<PathAlias>,
    instrs: Seq<Instr>,
    call_sites: Seq<CallSite>,
    stacks: Seq<StackFact>,
    out_pas: Seq<PathAlias>,
) -> bool {
    forall|i: int, k: int, j: int, s2: int, v: int|
        #![trigger pas[i], call_sites[j], stacks[s2], xfer_of(instrs[k], pas[i].var)[v]]
        0 <= i < pas.len() && 0 <= k < instrs.len() && 0 <= j < call_sites.len() && 0 <= s2
            < stacks.len() && instrs[k].bin == pas[i].cur_bin && instrs[k].addr == pas[i].cur_addr
            && call_sites[j].src_bin == pas[i].cur_bin && call_sites[j].src_addr
            == pas[i].cur_addr && stacks[s2].prev == pas[i].stack && stacks[s2].bin
            == pas[i].cur_bin && stacks[s2].ret == instrs[k].fall && crate::chop::chop_check_spec(
            pas[i].chop,
            call_sites[j].dst_addr,
        ).len() > 0 && 0 <= v < xfer_of(instrs[k], pas[i].var).len() ==> has_pa(
            out_pas,
            call_concl(
                pas[i],
                call_sites[j],
                s2,
                crate::chop::chop_check_spec(pas[i].chop, call_sites[j].dst_addr)[0],
                xfer_of(instrs[k], pas[i].var)[v],
            ),
        )
}

/// Closure of `rule_flow_ret_pop` against the live store.
pub open spec fn closed_flow_ret_pop(pas: Seq<PathAlias>, instrs: Seq<Instr>, stacks: Seq<StackFact>, out_pas: Seq<PathAlias>) -> bool {
    forall|i: int, k: int|
        #![trigger pas[i], instrs[k]]
        0 <= i < pas.len() && 0 <= k < instrs.len() && instrs[k].bin == pas[i].cur_bin
            && instrs[k].addr == pas[i].cur_addr && instrs[k].is_ret && pas[i].stack != 0
            && pas[i].stack < stacks.len() ==> has_pa(
            out_pas,
            pop_concl(pas[i], stacks[pas[i].stack as int]),
        )
}

/// Closure of `rule_flow_ret_notarget` against the live store.
pub open spec fn closed_flow_ret_notarget(
    pas: Seq<PathAlias>,
    funcs: Seq<FuncFact>,
    call_sites: Seq<CallSite>,
    instrs: Seq<Instr>,
    out_pas: Seq<PathAlias>,
) -> bool {
    forall|i: int, j: int, k: int, m: int, m2: int|
        #![trigger pas[i], funcs[j], call_sites[k], instrs[m], instrs[m2]]
        0 <= i < pas.len() && 0 <= j < funcs.len() && 0 <= k < call_sites.len() && 0 <= m
            < instrs.len() && 0 <= m2 < instrs.len() && pas[i].stack == 0 && funcs[j].bin
            == pas[i].cur_bin && funcs[j].addr == pas[i].cur_addr && call_sites[k].dst_bin
            == pas[i].cur_bin && call_sites[k].dst_addr == funcs[j].entry && instrs[m].bin
            == pas[i].cur_bin && instrs[m].addr == pas[i].cur_addr && instrs[m].is_ret
            && instrs[m2].bin == call_sites[k].src_bin && instrs[m2].addr == call_sites[k].src_addr
            && crate::chop::chop_check_spec(pas[i].chop, funcs[j].entry).len() > 0 ==> has_pa(
            out_pas,
            retno_concl(
                pas[i],
                call_sites[k],
                instrs[m2].fall,
                crate::chop::chop_check_spec(pas[i].chop, funcs[j].entry)[0],
            ),
        )
}

/// The store is closed under the reachability and call-classification
/// rules.
pub open spec fn closed_basic(db: Db) -> bool {
    &&& rule_sema_succ(db.instrs@, db.succs@)
    &&& rule_skip_computed(db.instrs@, db.succs@)
    &&& rule_entries_live(db.entries@, db.lives@)
    &&& rule_live_succ(db.succs@, db.lives@)
    &&& rule_live_call(db.instrs@, db.lives@)
    &&& rule_free_call(db.link_pads@, db.succs@, db.free_calls@)
    &&& rule_malloc_call(db.link_pads@, db.succs@, db.malloc_calls@)
    &&& rule_puts_uses(db.link_pads@, db.succs@, db.func_uses@)
    &&& rule_skip_of(db.malloc_calls@, db.skip_funcs@)
    &&& rule_skip_of(db.free_calls@, db.skip_funcs@)
    &&& rule_skip_dyn(db.link_pads@, db.succs@, db.skip_funcs@)
}

/// The store is closed under the step-over, call-edge and function-span
/// rules.
pub open spec fn closed_stage2(db: Db) -> bool {
    &&& rule_succ_over_normal(db.succs@, db.succ_overs@)
    &&& rule_succ_over_skip(db.succs@, db.instrs@, db.succ_overs@)
    &&& rule_call_site_internal(db.succs@, db.call_sites@)
    &&& rule_call_site_dyn(db.link_pads@, db.succs@, db.entries@, db.call_sites@)
    &&& rule_func_start(db.entries@, db.funcs@)
    &&& rule_func_walk(db.funcs@, db.succ_overs@, db.funcs@)
}

/// The store is closed under the path-alias seeding, propagation and sink
/// rules.
pub open spec fn closed_uaf1(db: Db) -> bool {
    &&& closed_flow_start(db.malloc_calls@, db.instrs@, db.path_aliases@)
    &&& closed_flow_start_heap(db.instrs@, db.path_aliases@)
    &&& closed_flow_free(db.path_aliases@, db.free_calls@, db.instrs@, db.path_aliases@)
    &&& closed_flow_prop(db.path_aliases@, db.succs@, db.instrs@, db.path_aliases@)
    &&& closed_flow_skip(db.path_aliases@, db.skip_funcs@, db.instrs@, db.path_aliases@)
    &&& rule_stack_push(db.path_aliases@, db.instrs@, db.call_sites@, db.stacks@, db.stacks@)
    &&& closed_flow_call(db.path_aliases@, db.instrs@, db.call_sites@, db.stacks@, db.path_aliases@)
    &&& closed_flow_ret_pop(db.path_aliases@, db.instrs@, db.stacks@, db.path_aliases@)
    &&& rule_flow_final(db.path_aliases@, db.instrs@, db.uaf_flows@)
    &&& rule_flow_final_use(db.path_aliases@, db.func_uses@, db.uaf_flows@)
}

/// The store is closed under the empty-context return rule.
pub open spec fn closed_uaf2(db: Db) -> bool {
    closed_flow_ret_notarget(db.path_aliases@, db.funcs@, db.call_sites@, db.instrs@, db.path_aliases@)
}

/// The store is closed under the trace seeding and propagation rules.
pub open spec fn closed_trace1(db: Db) -> bool {
    &&& rule_trace_start(db.uaf_flows@, db.path_aliases@, db.succ_overs@, db.traces@)
    &&& rule_trace_free(db.traces@, db.free_calls@, db.instrs@, db.max_trace_len, db.traces@)
    &&& rule_trace_prop(db.traces@, db.succs@, db.instrs@, db.max_trace_len, db.traces@)
    &&& rule_trace_skip(db.traces@, db.skip_funcs@, db.instrs@, db.max_trace_len, db.traces@)
    &&& rule_trace_call(
        db.traces@,
        db.instrs@,
        db.call_sites@,
        db.stacks@,
        db.max_trace_len,
        db.traces@,
    )
    &&& rule_trace_ret_pop(db.traces@, db.instrs@, db.stacks@, db.max_trace_len, db.traces@)
}

/// The store is closed under the trace empty-context return rule.
pub open spec fn closed_trace2(db: Db) -> bool {
    rule_trace_ret_notarget(
        db.traces@,
        db.funcs@,
        db.call_sites@,
        db.instrs@,
        db.max_trace_len,
        db.traces@,
    )
}

/// The store is closed under the finding rules.
pub open spec fn closed_grading(db: Db) -> bool {
    &&& rule_uaf_finalize(db.traces@, db.instrs@, db.uafs@)
    &&& rule_uaf_finalize_use(db.traces@, db.func_uses@, db.uafs@)
}

/// The store is closed under every rule of every stage up to `k`.
pub open spec fn closed_upto(db: Db, k: int) -> bool {
    &&& (k >= 1 ==> closed_basic(db))
    &&& (k >= 2 ==> closed_stage2(db))
    &&& (k >= 3 ==> closed_uaf1(db))
    &&& (k >= 4 ==> closed_uaf2(db))
    &&& (k >= 5 ==> closed_trace1(db))
    &&& (k >= 6 ==> closed_trace2(db))
    &&& (k >= 7 ==> closed_grading(db))
}

/// Freed-flag monotonicity: once a path-alias key is recorded freed,
/// any store the analysis grows from it still records it freed; a true
/// flag is never downgraded.
pub proof fn lemma_freed_monotone(a: Db, b: Db, f: PathAlias)
    requires
        db_grows(a, b),
        has_pa(a.path_aliases@, f),
        f.freed,
    ensures
        has_pa(b.path_aliases@, f),
{
}

/// The chop bound over the whole store: no recorded branch carries more
/// than three distinct call targets.
pub proof fn lemma_db_chop_bound(db: Db)
    requires
        db_wf(db),
    ensures
        forall|i: int|
            0 <= i < db.path_aliases@.len() ==> crate::chop::chop_view(
                (#[trigger] db.path_aliases@[i]).chop,
            ).len() <= 3,
{
}

/// The `v`-th location of the `k`-th heap-alias class an instruction
/// discovers.
pub open spec fn heap_seed_var(ins: Instr, k: int, v: int) -> HVar {
    crate::analyses::heap_init_spec(ins.sema)[k].1[v]
}

/// The seeded state for one discovered heap alias: a fresh, unfreed state
/// at the instruction's fallthrough under the empty context, numbered by
/// its alias class.
pub open spec fn heap_seed_concl(ins: Instr, k: int, v: int) -> PathAlias {
    PathAlias {
        src_bin: ins.bin,
        src_addr: ins.addr,
        alias_set: k as u64,
        stack: 0,
        chop: empty_chop(),
        cur_bin: ins.bin,
        cur_addr: ins.fall,
        var: heap_seed_var(ins, k, v),
        freed: false,
    }
}

/// Every instruction that loads through a promotable non-stack pointer
/// seeds a fresh heap-alias state for each discovered location:
/// best-effort discovery of aliasing through already-loaded heap cells.
pub open spec fn rule_flow_start_heap(instrs: Seq<Instr>, out_rel: Seq<PathAlias>) -> bool {
    forall|i: int, k: int, v: int|
        #![trigger heap_seed_var(instrs[i], k, v)]
        0 <= i < instrs.len() && 0 <= k < crate::analyses::heap_init_spec(instrs[i].sema).len()
            && 0 <= v < crate::analyses::heap_init_spec(instrs[i].sema)[k].1.len()
            ==> out_rel.contains(heap_seed_concl(instrs[i], k, v))
}

/// A fact justified by `rule_flow_start_heap`.
pub open spec fn just_flow_start_heap(instrs: Seq<Instr>, f: PathAlias) -> bool {
    exists|i: int, k: int, v: int|
        #![trigger heap_seed_var(instrs[i], k, v)]
        0 <= i < instrs.len() && 0 <= k < crate::analyses::heap_init_spec(instrs[i].sema).len()
            && 0 <= v < crate::analyses::heap_init_spec(instrs[i].sema)[k].1.len() && f
            == heap_seed_concl(instrs[i], k, v)
}

/// Derives the conclusions of `rule_flow_start_heap`.
pub fn derive_flow_start_heap(instrs: &Vec<Instr>) -> (out: Vec<PathAlias>)
    ensures
        rule_flow_start_heap(instrs@, out@),
        forall|m: int| 0 <= m < out@.len() ==> just_flow_start_heap(instrs@, #[trigger] out@[m]),
{
    let mut out: Vec<PathAlias> = Vec::new();
    let na = instrs.len();
    for i in 0..na
        invariant
            na == instrs@.len(),
            forall|i2: int, k2: int, v2: int|
                #![trigger heap_seed_var(instrs@[i2], k2, v2)]
                0 <= i2 < i && 0 <= k2 < crate::analyses::heap_init_spec(instrs@[i2].sema).len()
                    && 0 <= v2 < crate::analyses::heap_init_spec(instrs@[i2].sema)[k2].1.len()
                    ==> out@.contains(heap_seed_concl(instrs@[i2], k2, v2)),
            forall|m: int|
                0 <= m < out@.len() ==> just_flow_start_heap(instrs@, #[trigger] out@[m]),
    {
        let hs = crate::analyses::heap_init(&instrs[i].sema);
        let nk = hs.len();
        proof {
            assert(hs@.len() == crate::analyses::heap_init_spec(instrs@[i as int].sema).len());
        }
        for k in 0..nk
            invariant
                na == instrs@.len(),
                i < na,
                nk == hs@.len(),
                hs@.len() == crate::analyses::heap_init_spec(instrs@[i as int].sema).len(),
                forall|k2: int|
                    0 <= k2 < hs@.len() ==> (#[trigger] hs@[k2]).0
                        == crate::analyses::heap_init_spec(instrs@[i as int].sema)[k2].0
                        && hs@[k2].1@ == crate::analyses::heap_init_spec(
                        instrs@[i as int].sema,
                    )[k2].1,
                forall|i2: int, k2: int, v2: int|
                    #![trigger heap_seed_var(instrs@[i2], k2, v2)]
                    0 <= i2 < i && 0 <= k2 < crate::analyses::heap_init_spec(
                        instrs@[i2].sema,
                    ).len() && 0 <= v2 < crate::analyses::heap_init_spec(
                        instrs@[i2].sema,
                    )[k2].1.len() ==> out@.contains(heap_seed_concl(instrs@[i2], k2, v2)),
                forall|k2: int, v2: int|
                    #![trigger heap_seed_var(instrs@[i as int], k2, v2)]
                    0 <= k2 < k && 0 <= v2 < crate::analyses::heap_init_spec(
                        instrs@[i as int].sema,
                    )[k2].1.len() ==> out@.contains(heap_seed_concl(instrs@[i as int], k2, v2)),
                forall|m: int|
                    0 <= m < out@.len() ==> just_flow_start_heap(instrs@, #[trigger] out@[m]),
        {
            let nv = hs[k].1.len();
            proof {
                assert(hs@[k as int].1@ == crate::analyses::heap_init_spec(
                    instrs@[i as int].sema,
                )[k as int].1);
            }
            for v in 0..nv
                invariant
                    na == instrs@.len(),
                    i < na,
                    k < nk,
                    nk == hs@.len(),
                    nv == hs@[k as int].1@.len(),
                    hs@.len() == crate::analyses::heap_init_spec(instrs@[i as int].sema).len(),
                    hs@[k as int].1@ == crate::analyses::heap_init_spec(
                        instrs@[i as int].sema,
                    )[k as int].1,
                    forall|k2: int|
                        0 <= k2 < hs@.len() ==> (#[trigger] hs@[k2]).0
                            == crate::analyses::heap_init_spec(instrs@[i as int].sema)[k2].0
                            && hs@[k2].1@ == crate::analyses::heap_init_spec(
                            instrs@[i as int].sema,
                        )[k2].1,
                    forall|i2: int, k2: int, v2: int|
                        #![trigger heap_seed_var(instrs@[i2], k2, v2)]
                        0 <= i2 < i && 0 <= k2 < crate::analyses::heap_init_spec(
                            instrs@[i2].sema,
                        ).len() && 0 <= v2 < crate::analyses::heap_init_spec(
                            instrs@[i2].sema,
                        )[k2].1.len() ==> out@.contains(heap_seed_concl(instrs@[i2], k2, v2)),
                    forall|k2: int, v2: int|
                        #![trigger heap_seed_var(instrs@[i as int], k2, v2)]
                        0 <= k2 < k && 0 <= v2 < crate::analyses::heap_init_spec(
                            instrs@[i as int].sema,
                        )[k2].1.len() ==> out@.contains(heap_seed_concl(instrs@[i as int], k2, v2)),
                    forall|v2: int|
                        0 <= v2 < v ==> out@.contains(
                            heap_seed_concl(instrs@[i as int], k as int, #[trigger] (v2 + 0)),
                        ),
                    forall|m: int|
                        0 <= m < out@.len() ==> just_flow_start_heap(instrs@, #[trigger] out@[m]),
            {
                let f = PathAlias {
                    src_bin: instrs[i].bin,
                    src_addr: instrs[i].addr,
                    alias_set: hs[k].0,
                    stack: 0,
                    chop: Chop::new(),
                    cur_bin: instrs[i].bin,
                    cur_addr: instrs[i].fall,
                    var: hs[k].1[v],
                    freed: false,
                };
                let ghost pre = out@;
                out.push(f);
                proof {
                    assert(out@.last() == f);
                    assert(forall|q: int| 0 <= q < pre.len() ==> out@[q] == pre[q]);
                    assert(hs@[k as int].0 == crate::analyses::heap_init_spec(
                        instrs@[i as int].sema,
                    )[k as int].0);
                    assert(crate::analyses::heap_init_spec(instrs@[i as int].sema)[k as int].0
                        == k as u64);
                    assert(hs@[k as int].1@[v as int] == heap_seed_var(
                        instrs@[i as int],
                        k as int,
                        v as int,
                    ));
                    assert(f == heap_seed_concl(instrs@[i as int], k as int, v as int));
                    assert(just_flow_start_heap(instrs@, f));
                    assert forall|m2: int|
                        0 <= m2 < out@.len() implies just_flow_start_heap(
                        instrs@,
                        #[trigger] out@[m2],
                    ) by {
                        if m2 < pre.len() {
                            assert(out@[m2] == pre[m2]);
                        } else {
                            assert(out@[m2] == f);
                        }
                    }
                    assert forall|i2: int, k2: int, v2: int|
                        #![trigger heap_seed_var(instrs@[i2], k2, v2)]
                        0 <= i2 < i && 0 <= k2 < crate::analyses::heap_init_spec(
                            instrs@[i2].sema,
                        ).len() && 0 <= v2 < crate::analyses::heap_init_spec(
                            instrs@[i2].sema,
                        )[k2].1.len() implies out@.contains(heap_seed_concl(instrs@[i2], k2, v2)) by {
                        let g = heap_seed_concl(instrs@[i2], k2, v2);
                        let q = choose|q: int| 0 <= q < pre.len() && pre[q] == g;
                        assert(out@[q] == g);
                    }
                    assert forall|k2: int, v2: int|
                        #![trigger heap_seed_var(instrs@[i as int], k2, v2)]
                        0 <= k2 < k && 0 <= v2 < crate::analyses::heap_init_spec(
                            instrs@[i as int].sema,
                        )[k2].1.len() implies out@.contains(
                        heap_seed_concl(instrs@[i as int], k2, v2),
                    ) by {
                        let g = heap_seed_concl(instrs@[i as int], k2, v2);
                        let q = choose|q: int| 0 <= q < pre.len() && pre[q] == g;
                        assert(out@[q] == g);
                    }
                    assert forall|v2: int|
                        0 <= v2 < v + 1 implies out@.contains(
                        heap_seed_concl(instrs@[i as int], k as int, #[trigger] (v2 + 0)),
                    ) by {
                        let g = heap_seed_concl(instrs@[i as int], k as int, v2);
                        if v2 < v {
                            let q = choose|q: int| 0 <= q < pre.len() && pre[q] == g;
                            assert(out@[q] == g);
                        } else {
                            assert(out@.last() == g);
                        }
                    }
                }
            }
            proof {
                assert forall|k2: int, v2: int|
                    #![trigger heap_seed_var(instrs@[i as int], k2, v2)]
                    0 <= k2 < k + 1 && 0 <= v2 < crate::analyses::heap_init_spec(
                        instrs@[i as int].sema,
                    )[k2].1.len() implies out@.contains(heap_seed_concl(instrs@[i as int], k2, v2)) by {
                    if k2 == k {
                        assert(out@.contains(
                            heap_seed_concl(instrs@[i as int], k as int, #[trigger] (v2 + 0)),
                        ));
                    }
                }
            }
        }
    }
    out
}

// ---------------------------------------------------------------------------
// The staged scheduler
// ---------------------------------------------------------------------------

/// Any sequence is a prefix of itself.
pub proof fn lemma_prefix_refl<T>(s: Seq<T>)
    ensures
        s.is_prefix_of(s),
{
    assert(s =~= s.subrange(0, s.len() as int));
}

/// Every stored possible-string fact is present in its own store.
pub proof fn lemma_poss_strings_refl(a: Seq<PossString>, b: Seq<PossString>)
    requires
        a == b,
    ensures
        forall|i: int|
            0 <= i < a.len() ==> has_poss_string(
                b,
                (#[trigger] a[i]).bin,
                a[i].addr,
                a[i].var,
                a[i].s@,
            ),
{
    assert forall|i: int|
        0 <= i < a.len() implies has_poss_string(
        b,
        (#[trigger] a[i]).bin,
        a[i].addr,
        a[i].var,
        a[i].s@,
    ) by {
        assert((#[trigger] b[i]).bin == a[i].bin && b[i].addr == a[i].addr && b[i].var == a[i].var
            && b[i].s@ == a[i].s@);
    }
}

/// Every registered printf-like name is present in its own store.
pub proof fn lemma_printf_refl(a: Seq<PrintfLike>, b: Seq<PrintfLike>)
    requires
        a == b,
    ensures
        forall|i: int| 0 <= i < a.len() ==> has_printf_like(b, (#[trigger] a[i]).name@),
{
    assert forall|i: int| 0 <= i < a.len() implies has_printf_like(b, (#[trigger] a[i]).name@) by {
        assert((#[trigger] b[i]).name@ == a[i].name@);
    }
}

/// Growth composes across two runs.
pub proof fn lemma_db_grows_trans(a: Db, b: Db, c: Db)
    requires
        db_grows(a, b),
        db_grows(b, c),
    ensures
        db_grows(a, c),
{
    assert(a.stacks@.is_prefix_of(c.stacks@)) by {
        assert(a.stacks@ =~= c.stacks@.subrange(0, a.stacks@.len() as int));
    }
    assert forall|i: int|
        0 <= i < a.poss_strings@.len() implies has_poss_string(
        c.poss_strings@,
        (#[trigger] a.poss_strings@[i]).bin,
        a.poss_strings@[i].addr,
        a.poss_strings@[i].var,
        a.poss_strings@[i].s@,
    ) by {
        let j = choose|j: int|
            0 <= j < b.poss_strings@.len() && (#[trigger] b.poss_strings@[j]).bin
                == a.poss_strings@[i].bin && b.poss_strings@[j].addr == a.poss_strings@[i].addr
                && b.poss_strings@[j].var == a.poss_strings@[i].var && b.poss_strings@[j].s@
                == a.poss_strings@[i].s@;
        assert(has_poss_string(
            c.poss_strings@,
            b.poss_strings@[j].bin,
            b.poss_strings@[j].addr,
            b.poss_strings@[j].var,
            b.poss_strings@[j].s@,
        ));
    }
    assert forall|i: int|
        0 <= i < a.printf_likes@.len() implies has_printf_like(
        c.printf_likes@,
        (#[trigger] a.printf_likes@[i]).name@,
    ) by {
        let j = choose|j: int|
            0 <= j < b.printf_likes@.len() && (#[trigger] b.printf_likes@[j]).name@
                == a.printf_likes@[i].name@;
        assert(has_printf_like(c.printf_likes@, b.printf_likes@[j].name@));
    }
}

/// One pass of the reachability and call-classification rules.
pub fn step_basic(db: &mut Db) -> (ch: bool)
    requires
        db_wf(*old(db)),
    ensures
        db_wf(*final(db)),
        db_grows(*old(db), *final(db)),
        !ch ==> db_eq(*old(db), *final(db)),
        rule_sema_succ(old(db).instrs@, final(db).succs@),
        rule_skip_computed(old(db).instrs@, final(db).succs@),
        rule_entries_live(old(db).entries@, final(db).lives@),
        rule_live_succ(old(db).succs@, final(db).lives@),
        rule_live_call(old(db).instrs@, final(db).lives@),
        rule_free_call(old(db).link_pads@, old(db).succs@, final(db).free_calls@),
        rule_malloc_call(old(db).link_pads@, old(db).succs@, final(db).malloc_calls@),
        rule_puts_uses(old(db).link_pads@, old(db).succs@, final(db).func_uses@),
        rule_skip_of(old(db).malloc_calls@, final(db).skip_funcs@),
        rule_skip_of(old(db).free_calls@, final(db).skip_funcs@),
        rule_skip_dyn(old(db).link_pads@, old(db).succs@, final(db).skip_funcs@),
{
    let ghost d0 = *old(db);
    let c_succ = derive_sema_succ(&db.instrs);
    let c_succ2 = derive_skip_computed(&db.instrs);
    let c_live1 = derive_entries_live(&db.entries);
    let c_live2 = derive_live_succ(&db.succs);
    let c_live3 = derive_live_call(&db.instrs);
    let c_free = derive_free_call(&db.link_pads, &db.succs);
    let c_malloc = derive_malloc_call(&db.link_pads, &db.succs);
    let c_uses = derive_puts_uses(&db.link_pads, &db.succs);
    let c_skip1 = derive_skip_of(&db.malloc_calls);
    let c_skip2 = derive_skip_of(&db.free_calls);
    let c_skip3 = derive_skip_dyn(&db.link_pads, &db.succs);
    let mut ch = false;
    ch = insert_succ(&mut db.succs, &c_succ) || ch;
    ch = insert_succ(&mut db.succs, &c_succ2) || ch;
    ch = insert_live(&mut db.lives, &c_live1) || ch;
    ch = insert_live(&mut db.lives, &c_live2) || ch;
    ch = insert_live(&mut db.lives, &c_live3) || ch;
    ch = insert_call_addr(&mut db.free_calls, &c_free) || ch;
    ch = insert_call_addr(&mut db.malloc_calls, &c_malloc) || ch;
    ch = insert_func_use(&mut db.func_uses, &c_uses) || ch;
    ch = insert_call_addr(&mut db.skip_funcs, &c_skip1) || ch;
    ch = insert_call_addr(&mut db.skip_funcs, &c_skip2) || ch;
    ch = insert_call_addr(&mut db.skip_funcs, &c_skip3) || ch;
    proof {
        lemma_prefix_refl(db.stacks@);
        lemma_poss_strings_refl(d0.poss_strings@, db.poss_strings@);
        lemma_printf_refl(d0.printf_likes@, db.printf_likes@);
        assert forall|i: int, kk: int|
            #![trigger succs_of(d0.instrs@[i])[kk]]
            0 <= i < d0.instrs@.len() && 0 <= kk < succs_of(d0.instrs@[i]).len() implies db.succs@.contains(
            SuccFact {
                bin: d0.instrs@[i].bin,
                src: d0.instrs@[i].addr,
                sink: succs_of(d0.instrs@[i])[kk],
                is_call: d0.instrs@[i].is_call,
            },
        ) by {
            assert(c_succ@.contains(
                SuccFact {
                    bin: d0.instrs@[i].bin,
                    src: d0.instrs@[i].addr,
                    sink: succs_of(d0.instrs@[i])[kk],
                    is_call: d0.instrs@[i].is_call,
                },
            ));
        }
        assert forall|i: int|
            0 <= i < d0.instrs@.len() && (#[trigger] d0.instrs@[i]).is_call
                && crate::analyses::computed_jump_spec(d0.instrs@[i].sema.stmts@) implies db.succs@.contains(
            SuccFact {
                bin: d0.instrs@[i].bin,
                src: d0.instrs@[i].addr,
                sink: d0.instrs@[i].fall,
                is_call: false,
            },
        ) by {
            assert(c_succ2@.contains(
                SuccFact {
                    bin: d0.instrs@[i].bin,
                    src: d0.instrs@[i].addr,
                    sink: d0.instrs@[i].fall,
                    is_call: false,
                },
            ));
        }
        assert forall|i: int|
            0 <= i < d0.entries@.len() implies db.lives@.contains(
            Live { bin: (#[trigger] d0.entries@[i]).bin, addr: d0.entries@[i].start },
        ) by {
            assert(c_live1@.contains(
                Live { bin: d0.entries@[i].bin, addr: d0.entries@[i].start },
            ));
        }
        assert forall|i: int|
            0 <= i < d0.succs@.len() implies db.lives@.contains(
            Live { bin: (#[trigger] d0.succs@[i]).bin, addr: d0.succs@[i].sink },
        ) by {
            assert(c_live2@.contains(Live { bin: d0.succs@[i].bin, addr: d0.succs@[i].sink }));
        }
        assert forall|i: int|
            0 <= i < d0.instrs@.len() && (#[trigger] d0.instrs@[i]).is_call implies db.lives@.contains(
            Live { bin: d0.instrs@[i].bin, addr: d0.instrs@[i].fall },
        ) by {
            assert(c_live3@.contains(Live { bin: d0.instrs@[i].bin, addr: d0.instrs@[i].fall }));
        }
        assert forall|i: int, j: int|
            #![trigger d0.link_pads@[i], d0.succs@[j]]
            0 <= i < d0.link_pads@.len() && 0 <= j < d0.succs@.len() && (d0.succs@[j].bin
                == d0.link_pads@[i].bin && d0.succs@[j].sink == d0.link_pads@[i].addr
                && d0.succs@[j].is_call && is_free_name_spec(d0.link_pads@[i].name@)) implies db.free_calls@.contains(
            CallAddr { bin: d0.link_pads@[i].bin, addr: d0.succs@[j].src },
        ) by {
            assert(c_free@.contains(CallAddr { bin: d0.link_pads@[i].bin, addr: d0.succs@[j].src }));
        }
        assert forall|i: int, j: int|
            #![trigger d0.link_pads@[i], d0.succs@[j]]
            0 <= i < d0.link_pads@.len() && 0 <= j < d0.succs@.len() && (d0.succs@[j].bin
                == d0.link_pads@[i].bin && d0.succs@[j].sink == d0.link_pads@[i].addr
                && d0.succs@[j].is_call && is_malloc_name_spec(d0.link_pads@[i].name@)) implies db.malloc_calls@.contains(
            CallAddr { bin: d0.link_pads@[i].bin, addr: d0.succs@[j].src },
        ) by {
            assert(c_malloc@.contains(
                CallAddr { bin: d0.link_pads@[i].bin, addr: d0.succs@[j].src },
            ));
        }
        assert forall|i: int, j: int|
            #![trigger d0.link_pads@[i], d0.succs@[j]]
            0 <= i < d0.link_pads@.len() && 0 <= j < d0.succs@.len() && (d0.succs@[j].bin
                == d0.link_pads@[i].bin && d0.succs@[j].sink == d0.link_pads@[i].addr
                && d0.succs@[j].is_call && d0.link_pads@[i].name@ == "puts"@) implies db.func_uses@.contains(
            FuncUse {
                bin: d0.link_pads@[i].bin,
                addr: d0.succs@[j].src,
                var: crate::var::spec_reg(crate::var::REG_ARG0),
            },
        ) by {
            assert(c_uses@.contains(
                FuncUse {
                    bin: d0.link_pads@[i].bin,
                    addr: d0.succs@[j].src,
                    var: crate::var::spec_reg(crate::var::REG_ARG0),
                },
            ));
        }
        assert forall|i: int|
            0 <= i < d0.malloc_calls@.len() implies db.skip_funcs@.contains(
            CallAddr {
                bin: (#[trigger] d0.malloc_calls@[i]).bin,
                addr: d0.malloc_calls@[i].addr,
            },
        ) by {
            assert(c_skip1@.contains(
                CallAddr { bin: d0.malloc_calls@[i].bin, addr: d0.malloc_calls@[i].addr },
            ));
        }
        assert forall|i: int|
            0 <= i < d0.free_calls@.len() implies db.skip_funcs@.contains(
            CallAddr { bin: (#[trigger] d0.free_calls@[i]).bin, addr: d0.free_calls@[i].addr },
        ) by {
            assert(c_skip2@.contains(
                CallAddr { bin: d0.free_calls@[i].bin, addr: d0.free_calls@[i].addr },
            ));
        }
        assert forall|i: int, j: int|
            #![trigger d0.link_pads@[i], d0.succs@[j]]
            0 <= i < d0.link_pads@.len() && 0 <= j < d0.succs@.len() && (d0.succs@[j].bin
                == d0.link_pads@[i].bin && d0.succs@[j].sink == d0.link_pads@[i].addr
                && d0.succs@[j].is_call) implies db.skip_funcs@.contains(
            CallAddr { bin: d0.link_pads@[i].bin, addr: d0.succs@[j].src },
        ) by {
            assert(c_skip3@.contains(
                CallAddr { bin: d0.link_pads@[i].bin, addr: d0.succs@[j].src },
            ));
        }
    }
    ch
}

/// One pass of the step-over, call-edge and function-span rules.
pub fn step_stage2(db: &mut Db) -> (ch: bool)
    requires
        db_wf(*old(db)),
    ensures
        db_wf(*final(db)),
        db_grows(*old(db), *final(db)),
        !ch ==> db_eq(*old(db), *final(db)),
        rule_succ_over_normal(old(db).succs@, final(db).succ_overs@),
        rule_succ_over_skip(old(db).succs@, old(db).instrs@, final(db).succ_overs@),
        rule_call_site_internal(old(db).succs@, final(db).call_sites@),
        rule_call_site_dyn(old(db).link_pads@, old(db).succs@, old(db).entries@, final(db).call_sites@),
        rule_func_start(old(db).entries@, final(db).funcs@),
        rule_func_walk(old(db).funcs@, old(db).succ_overs@, final(db).funcs@),
{
    let ghost d0 = *old(db);
    let c_over1 = derive_succ_over_normal(&db.succs);
    let c_over2 = derive_succ_over_skip(&db.succs, &db.instrs);
    let c_cs1 = derive_call_site_internal(&db.succs);
    let c_cs2 = derive_call_site_dyn(&db.link_pads, &db.succs, &db.entries);
    let c_fn1 = derive_func_start(&db.entries);
    let c_fn2 = derive_func_walk(&db.funcs, &db.succ_overs);
    let mut ch = false;
    ch = insert_succ_over(&mut db.succ_overs, &c_over1) || ch;
    ch = insert_succ_over(&mut db.succ_overs, &c_over2) || ch;
    ch = insert_call_site(&mut db.call_sites, &c_cs1) || ch;
    ch = insert_call_site(&mut db.call_sites, &c_cs2) || ch;
    ch = insert_func(&mut db.funcs, &c_fn1) || ch;
    ch = insert_func(&mut db.funcs, &c_fn2) || ch;
    proof {
        lemma_prefix_refl(db.stacks@);
        lemma_poss_strings_refl(d0.poss_strings@, db.poss_strings@);
        lemma_printf_refl(d0.printf_likes@, db.printf_likes@);
        assert forall|i: int|
            0 <= i < d0.succs@.len() && !(#[trigger] d0.succs@[i]).is_call implies db.succ_overs@.contains(
            SuccOver { bin: d0.succs@[i].bin, addr: d0.succs@[i].src, next: d0.succs@[i].sink },
        ) by {
            assert(c_over1@.contains(
                SuccOver { bin: d0.succs@[i].bin, addr: d0.succs@[i].src, next: d0.succs@[i].sink },
            ));
        }
        assert forall|i: int, j: int|
            #![trigger d0.succs@[i], d0.instrs@[j]]
            0 <= i < d0.succs@.len() && 0 <= j < d0.instrs@.len() && (d0.succs@[i].is_call
                && d0.instrs@[j].bin == d0.succs@[i].bin && d0.instrs@[j].addr
                == d0.succs@[i].src) implies db.succ_overs@.contains(
            SuccOver { bin: d0.succs@[i].bin, addr: d0.succs@[i].src, next: d0.instrs@[j].fall },
        ) by {
            assert(c_over2@.contains(
                SuccOver { bin: d0.succs@[i].bin, addr: d0.succs@[i].src, next: d0.instrs@[j].fall },
            ));
        }
        assert forall|i: int|
            0 <= i < d0.succs@.len() && (#[trigger] d0.succs@[i]).is_call implies db.call_sites@.contains(
            CallSite {
                src_bin: d0.succs@[i].bin,
                src_addr: d0.succs@[i].src,
                dst_bin: d0.succs@[i].bin,
                dst_addr: d0.succs@[i].sink,
            },
        ) by {
            assert(c_cs1@.contains(
                CallSite {
                    src_bin: d0.succs@[i].bin,
                    src_addr: d0.succs@[i].src,
                    dst_bin: d0.succs@[i].bin,
                    dst_addr: d0.succs@[i].sink,
                },
            ));
        }
        assert forall|i: int, j: int, kk: int|
            #![trigger d0.link_pads@[i], d0.succs@[j], d0.entries@[kk]]
            0 <= i < d0.link_pads@.len() && 0 <= j < d0.succs@.len() && 0 <= kk
                < d0.entries@.len() && (d0.succs@[j].bin == d0.link_pads@[i].bin
                && d0.succs@[j].sink == d0.link_pads@[i].addr && d0.succs@[j].is_call
                && d0.entries@[kk].sym@ == d0.link_pads@[i].name@) implies db.call_sites@.contains(
            CallSite {
                src_bin: d0.link_pads@[i].bin,
                src_addr: d0.succs@[j].src,
                dst_bin: d0.entries@[kk].bin,
                dst_addr: d0.entries@[kk].start,
            },
        ) by {
            assert(c_cs2@.contains(
                CallSite {
                    src_bin: d0.link_pads@[i].bin,
                    src_addr: d0.succs@[j].src,
                    dst_bin: d0.entries@[kk].bin,
                    dst_addr: d0.entries@[kk].start,
                },
            ));
        }
        assert forall|i: int|
            0 <= i < d0.entries@.len() implies db.funcs@.contains(
            FuncFact {
                bin: (#[trigger] d0.entries@[i]).bin,
                entry: d0.entries@[i].start,
                addr: d0.entries@[i].start,
            },
        ) by {
            assert(c_fn1@.contains(
                FuncFact {
                    bin: d0.entries@[i].bin,
                    entry: d0.entries@[i].start,
                    addr: d0.entries@[i].start,
                },
            ));
        }
        assert forall|i: int, j: int|
            #![trigger d0.funcs@[i], d0.succ_overs@[j]]
            0 <= i < d0.funcs@.len() && 0 <= j < d0.succ_overs@.len() && (d0.funcs@[i].bin
                == d0.succ_overs@[j].bin && d0.funcs@[i].addr == d0.succ_overs@[j].addr) implies db.funcs@.contains(
            FuncFact {
                bin: d0.funcs@[i].bin,
                entry: d0.funcs@[i].entry,
                addr: d0.succ_overs@[j].next,
            },
        ) by {
            assert(c_fn2@.contains(
                FuncFact {
                    bin: d0.funcs@[i].bin,
                    entry: d0.funcs@[i].entry,
                    addr: d0.succ_overs@[j].next,
                },
            ));
        }
    }
    ch
}

/// Inserted path-alias stores stay valid: every record's context id and
/// chop come from a valid stored record or a valid candidate.
pub proof fn lemma_pa_insert_wf(
    pre: Seq<PathAlias>,
    post: Seq<PathAlias>,
    cands: Seq<PathAlias>,
    nstacks: int,
)
    requires
        pa_keys_from(post, pre, cands),
        forall|i: int|
            0 <= i < pre.len() ==> (#[trigger] pre[i]).stack < nstacks && chop_wf(pre[i].chop),
        forall|m: int|
            0 <= m < cands.len() ==> (#[trigger] cands[m]).stack < nstacks && chop_wf(
                cands[m].chop,
            ),
    ensures
        forall|i: int|
            0 <= i < post.len() ==> (#[trigger] post[i]).stack < nstacks && chop_wf(post[i].chop),
{
    assert forall|i: int|
        0 <= i < post.len() implies (#[trigger] post[i]).stack < nstacks && chop_wf(
        post[i].chop,
    ) by {
        assert(pa_key_from_one(post[i], pre, cands));
        if exists|j: int| 0 <= j < pre.len() && pa_key_eq(post[i], #[trigger] pre[j]) {
            let j = choose|j: int| 0 <= j < pre.len() && pa_key_eq(post[i], #[trigger] pre[j]);
            assert(pre[j].stack < nstacks && chop_wf(pre[j].chop));
        } else {
            let k = choose|k: int| 0 <= k < cands.len() && pa_key_eq(post[i], #[trigger] cands[k]);
            assert(cands[k].stack < nstacks && chop_wf(cands[k].chop));
        }
    }
}

/// Inserted trace stores stay valid: every record comes from a valid
/// stored record or a valid candidate.
pub proof fn lemma_traces_insert_wf(
    pre: Seq<PathAliasTrace>,
    post: Seq<PathAliasTrace>,
    cands: Seq<PathAliasTrace>,
    nstacks: int,
    max: u64,
)
    requires
        forall|f: PathAliasTrace| post.contains(f) ==> pre.contains(f) || cands.contains(f),
        forall|i: int|
            0 <= i < pre.len() ==> (#[trigger] pre[i]).stack < nstacks && pre[i].len <= max,
        forall|m: int|
            0 <= m < cands.len() ==> (#[trigger] cands[m]).stack < nstacks && cands[m].len <= max,
    ensures
        forall|i: int|
            0 <= i < post.len() ==> (#[trigger] post[i]).stack < nstacks && post[i].len <= max,
{
    assert forall|i: int|
        0 <= i < post.len() implies (#[trigger] post[i]).stack < nstacks && post[i].len <= max by {
        assert(post.contains(post[i]));
        if pre.contains(post[i]) {
            let j = choose|j: int| 0 <= j < pre.len() && pre[j] == post[i];
            assert(pre[j].stack < nstacks && pre[j].len <= max);
        } else {
            let k = choose|k: int| 0 <= k < cands.len() && cands[k] == post[i];
            assert(cands[k].stack < nstacks && cands[k].len <= max);
        }
    }
}

/// One pass of the path-alias seed and sink rules, interning the contexts
/// the call sites ask for.
#[verifier::rlimit(60)]
pub fn step_uaf1_seeds(db: &mut Db) -> (ch: bool)
    requires
        db_wf(*old(db)),
    ensures
        db_wf(*final(db)),
        db_grows(*old(db), *final(db)),
        !ch ==> db_eq(*old(db), *final(db)),
        closed_flow_start(old(db).malloc_calls@, old(db).instrs@, final(db).path_aliases@),
        closed_flow_start_heap(old(db).instrs@, final(db).path_aliases@),
        rule_stack_push(
            old(db).path_aliases@,
            old(db).instrs@,
            old(db).call_sites@,
            old(db).stacks@,
            final(db).stacks@,
        ),
        rule_flow_final(old(db).path_aliases@, old(db).instrs@, final(db).uaf_flows@),
        rule_flow_final_use(old(db).path_aliases@, old(db).func_uses@, final(db).uaf_flows@),
{
    let ghost d0 = *old(db);
    let c_pa1 = derive_flow_start(&db.malloc_calls, &db.instrs);
    let c_heap = derive_flow_start_heap(&db.instrs);
    let c_push = derive_stack_push(&db.path_aliases, &db.instrs, &db.call_sites, &db.stacks);
    let c_fl1 = derive_flow_final(&db.path_aliases, &db.instrs);
    let c_fl2 = derive_flow_final_use(&db.path_aliases, &db.func_uses);
    let mut ch = false;
    proof {
        assert forall|m: int|
            0 <= m < c_push@.len() implies (#[trigger] c_push@[m]).prev < db.stacks@.len()
            && db.stacks@[c_push@[m].prev as int].len < 5 by {
            assert(just_stack_push(d0.path_aliases@, d0.instrs@, d0.call_sites@, d0.stacks@, c_push@[m]));
        }
    }
    ch = intern_stacks(&mut db.stacks, &c_push) || ch;
    let ghost stacks1 = db.stacks@;
    proof {
        assert forall|m: int|
            0 <= m < c_pa1@.len() implies (#[trigger] c_pa1@[m]).stack < db.stacks@.len()
            && chop_wf(c_pa1@[m].chop) by {
            assert(just_flow_start(d0.malloc_calls@, d0.instrs@, c_pa1@[m]));
        }
        assert forall|m: int|
            0 <= m < c_heap@.len() implies (#[trigger] c_heap@[m]).stack < db.stacks@.len()
            && chop_wf(c_heap@[m].chop) by {
            assert(just_flow_start_heap(d0.instrs@, c_heap@[m]));
        }
        assert forall|i: int|
            0 <= i < db.path_aliases@.len() implies (#[trigger] db.path_aliases@[i]).stack
            < db.stacks@.len() && chop_wf(db.path_aliases@[i].chop) by {
            assert(d0.path_aliases@[i].stack < d0.stacks@.len() <= db.stacks@.len());
        }
    }
    let ghost pas0 = db.path_aliases@;
    let c1 = insert_pas(&mut db.path_aliases, &c_pa1);
    proof {
        lemma_pa_insert_wf(pas0, db.path_aliases@, c_pa1@, stacks1.len() as int);
    }
    let ghost pas1 = db.path_aliases@;
    let c2 = insert_pas(&mut db.path_aliases, &c_heap);
    proof {
        lemma_pa_insert_wf(pas1, db.path_aliases@, c_heap@, stacks1.len() as int);
    }
    let c3 = insert_uaf_flow(&mut db.uaf_flows, &c_fl1);
    let c4 = insert_uaf_flow(&mut db.uaf_flows, &c_fl2);
    ch = ch || c1 || c2 || c3 || c4;
    proof {
        lemma_poss_strings_refl(d0.poss_strings@, db.poss_strings@);
        lemma_printf_refl(d0.printf_likes@, db.printf_likes@);
        assert forall|i: int, j: int|
            #![trigger d0.malloc_calls@[i], d0.instrs@[j]]
            0 <= i < d0.malloc_calls@.len() && 0 <= j < d0.instrs@.len() && (d0.instrs@[j].bin
                == d0.malloc_calls@[i].bin && d0.instrs@[j].addr == d0.malloc_calls@[i].addr) implies has_pa(
            db.path_aliases@,
            PathAlias {
                src_bin: d0.malloc_calls@[i].bin,
                src_addr: d0.malloc_calls@[i].addr,
                alias_set: 0,
                stack: 0,
                chop: empty_chop(),
                cur_bin: d0.malloc_calls@[i].bin,
                cur_addr: d0.instrs@[j].fall,
                var: crate::var::spec_reg(crate::var::REG_RET),
                freed: false,
            },
        ) by {
            let g = PathAlias {
                src_bin: d0.malloc_calls@[i].bin,
                src_addr: d0.malloc_calls@[i].addr,
                alias_set: 0,
                stack: 0,
                chop: empty_chop(),
                cur_bin: d0.malloc_calls@[i].bin,
                cur_addr: d0.instrs@[j].fall,
                var: crate::var::spec_reg(crate::var::REG_RET),
                freed: false,
            };
            assert(c_pa1@.contains(g));
            let m = choose|m: int| 0 <= m < c_pa1@.len() && c_pa1@[m] == g;
            assert(has_pa(pas1, c_pa1@[m]));
        }
        assert forall|i: int, kk: int, v: int|
            #![trigger heap_seed_var(d0.instrs@[i], kk, v)]
            0 <= i < d0.instrs@.len() && 0 <= kk < crate::analyses::heap_init_spec(
                d0.instrs@[i].sema,
            ).len() && 0 <= v < crate::analyses::heap_init_spec(d0.instrs@[i].sema)[kk].1.len() implies has_pa(
            db.path_aliases@,
            heap_seed_concl(d0.instrs@[i], kk, v),
        ) by {
            let g = heap_seed_concl(d0.instrs@[i], kk, v);
            assert(c_heap@.contains(g));
            let m = choose|m: int| 0 <= m < c_heap@.len() && c_heap@[m] == g;
            assert(has_pa(db.path_aliases@, c_heap@[m]));
        }
        assert forall|i: int, kk: int, j: int|
            #![trigger d0.path_aliases@[i], d0.instrs@[kk], d0.call_sites@[j]]
            0 <= i < d0.path_aliases@.len() && 0 <= kk < d0.instrs@.len() && 0 <= j
                < d0.call_sites@.len() && (d0.instrs@[kk].bin == d0.path_aliases@[i].cur_bin
                && d0.instrs@[kk].addr == d0.path_aliases@[i].cur_addr
                && d0.call_sites@[j].src_bin == d0.path_aliases@[i].cur_bin
                && d0.call_sites@[j].src_addr == d0.path_aliases@[i].cur_addr
                && d0.path_aliases@[i].stack < d0.stacks@.len()
                && d0.stacks@[d0.path_aliases@[i].stack as int].len < 5) implies has_frame(
            db.stacks@,
            d0.path_aliases@[i].stack,
            d0.path_aliases@[i].cur_bin,
            d0.instrs@[kk].fall,
        ) by {
            assert(has_frame(
                c_push@,
                d0.path_aliases@[i].stack,
                d0.path_aliases@[i].cur_bin,
                d0.instrs@[kk].fall,
            ));
            let m = choose|m: int|
                0 <= m < c_push@.len() && (#[trigger] c_push@[m]).prev == d0.path_aliases@[i].stack
                    && c_push@[m].bin == d0.path_aliases@[i].cur_bin && c_push@[m].ret
                    == d0.instrs@[kk].fall;
            assert(has_frame(stacks1, c_push@[m].prev, c_push@[m].bin, c_push@[m].ret));
            let sid = choose|sid: int|
                0 <= sid < stacks1.len() && (#[trigger] stacks1[sid]).prev == c_push@[m].prev
                    && stacks1[sid].bin == c_push@[m].bin && stacks1[sid].ret == c_push@[m].ret;
            assert((#[trigger] db.stacks@[sid]).prev == c_push@[m].prev);
        }
        assert forall|i: int, j: int|
            #![trigger d0.path_aliases@[i], d0.instrs@[j]]
            0 <= i < d0.path_aliases@.len() && 0 <= j < d0.instrs@.len() && (
            d0.path_aliases@[i].freed && d0.instrs@[j].bin == d0.path_aliases@[i].cur_bin
                && d0.instrs@[j].addr == d0.path_aliases@[i].cur_addr
                && crate::analyses::deref_var_sema_spec(
                d0.instrs@[j].sema,
                d0.path_aliases@[i].var,
            )) implies db.uaf_flows@.contains(
            UafFlow {
                src_bin: d0.path_aliases@[i].src_bin,
                src_addr: d0.path_aliases@[i].src_addr,
                alias_set: d0.path_aliases@[i].alias_set,
                stack: d0.path_aliases@[i].stack,
                sink_bin: d0.path_aliases@[i].cur_bin,
                sink_addr: d0.path_aliases@[i].cur_addr,
                var: d0.path_aliases@[i].var,
            },
        ) by {
            assert(c_fl1@.contains(
                UafFlow {
                    src_bin: d0.path_aliases@[i].src_bin,
                    src_addr: d0.path_aliases@[i].src_addr,
                    alias_set: d0.path_aliases@[i].alias_set,
                    stack: d0.path_aliases@[i].stack,
                    sink_bin: d0.path_aliases@[i].cur_bin,
                    sink_addr: d0.path_aliases@[i].cur_addr,
                    var: d0.path_aliases@[i].var,
                },
            ));
        }
        assert forall|i: int, j: int|
            #![trigger d0.path_aliases@[i], d0.func_uses@[j]]
            0 <= i < d0.path_aliases@.len() && 0 <= j < d0.func_uses@.len() && (
            d0.path_aliases@[i].freed && d0.func_uses@[j].bin == d0.path_aliases@[i].cur_bin
                && d0.func_uses@[j].addr == d0.path_aliases@[i].cur_addr && d0.func_uses@[j].var
                == d0.path_aliases@[i].var) implies db.uaf_flows@.contains(
            UafFlow {
                src_bin: d0.path_aliases@[i].src_bin,
                src_addr: d0.path_aliases@[i].src_addr,
                alias_set: d0.path_aliases@[i].alias_set,
                stack: d0.path_aliases@[i].stack,
                sink_bin: d0.path_aliases@[i].cur_bin,
                sink_addr: d0.path_aliases@[i].cur_addr,
                var: d0.path_aliases@[i].var,
            },
        ) by {
            assert(c_fl2@.contains(
                UafFlow {
                    src_bin: d0.path_aliases@[i].src_bin,
                    src_addr: d0.path_aliases@[i].src_addr,
                    alias_set: d0.path_aliases@[i].alias_set,
                    stack: d0.path_aliases@[i].stack,
                    sink_bin: d0.path_aliases@[i].cur_bin,
                    sink_addr: d0.path_aliases@[i].cur_addr,
                    var: d0.path_aliases@[i].var,
                },
            ));
        }
    }
    ch
}

/// One pass of the path-alias propagation rules.
#[verifier::rlimit(100)]
pub fn step_uaf1_flows(db: &mut Db) -> (ch: bool)
    requires
        db_wf(*old(db)),
    ensures
        db_wf(*final(db)),
        db_grows(*old(db), *final(db)),
        !ch ==> db_eq(*old(db), *final(db)),
        closed_flow_free(old(db).path_aliases@, old(db).free_calls@, old(db).instrs@, final(db).path_aliases@),
        closed_flow_prop(old(db).path_aliases@, old(db).succs@, old(db).instrs@, final(db).path_aliases@),
        closed_flow_skip(old(db).path_aliases@, old(db).skip_funcs@, old(db).instrs@, final(db).path_aliases@),
        closed_flow_call(old(db).path_aliases@, old(db).instrs@, old(db).call_sites@, old(db).stacks@, final(db).path_aliases@),
        closed_flow_ret_pop(old(db).path_aliases@, old(db).instrs@, old(db).stacks@, final(db).path_aliases@),
{
    let ghost d0 = *old(db);
    let c_pa2 = derive_flow_free(&db.path_aliases, &db.free_calls, &db.instrs);
    let c_pa3 = derive_flow_prop(&db.path_aliases, &db.succs, &db.instrs);
    let c_pa4 = derive_flow_skip(&db.path_aliases, &db.skip_funcs, &db.instrs);
    let c_pa5 = derive_flow_call(&db.path_aliases, &db.instrs, &db.call_sites, &db.stacks);
    let c_pa6 = derive_flow_ret_pop(&db.path_aliases, &db.instrs, &db.stacks);
    proof {
        let ns = d0.stacks@.len() as int;
        assert forall|m: int|
            0 <= m < c_pa2@.len() implies (#[trigger] c_pa2@[m]).stack < ns && chop_wf(
            c_pa2@[m].chop,
        ) by {
            assert(just_flow_free(d0.path_aliases@, d0.free_calls@, d0.instrs@, c_pa2@[m]));
            let (i, kk) = choose|i: int, kk: int|
                #![trigger d0.path_aliases@[i], d0.instrs@[kk]]
                0 <= i < d0.path_aliases@.len() && 0 <= kk < d0.instrs@.len()
                    && d0.free_calls@.contains(
                    CallAddr { bin: d0.path_aliases@[i].cur_bin, addr: d0.path_aliases@[i].cur_addr },
                ) && pa_companion(d0.path_aliases@, d0.path_aliases@[i]) && d0.instrs@[kk].bin
                    == d0.path_aliases@[i].cur_bin && d0.instrs@[kk].addr
                    == d0.path_aliases@[i].cur_addr && c_pa2@[m] == free_concl(
                    d0.path_aliases@[i],
                    d0.instrs@[kk].fall,
                );
            assert(d0.path_aliases@[i].stack < d0.stacks@.len());
        }
        assert forall|m: int|
            0 <= m < c_pa3@.len() implies (#[trigger] c_pa3@[m]).stack < ns && chop_wf(
            c_pa3@[m].chop,
        ) by {
            assert(just_flow_prop(d0.path_aliases@, d0.succs@, d0.instrs@, c_pa3@[m]));
            let (i, j, kk, v) = choose|i: int, j: int, kk: int, v: int|
                #![trigger d0.path_aliases@[i], d0.succs@[j], xfer_of(d0.instrs@[kk], d0.path_aliases@[i].var)[v]]
                0 <= i < d0.path_aliases@.len() && 0 <= j < d0.succs@.len() && 0 <= kk
                    < d0.instrs@.len() && d0.succs@[j].bin == d0.path_aliases@[i].cur_bin
                    && d0.succs@[j].src == d0.path_aliases@[i].cur_addr && !d0.succs@[j].is_call
                    && d0.instrs@[kk].bin == d0.path_aliases@[i].cur_bin && d0.instrs@[kk].addr
                    == d0.path_aliases@[i].cur_addr && 0 <= v < xfer_of(
                    d0.instrs@[kk],
                    d0.path_aliases@[i].var,
                ).len() && c_pa3@[m] == prop_concl(
                    d0.path_aliases@[i],
                    d0.succs@[j].sink,
                    xfer_of(d0.instrs@[kk], d0.path_aliases@[i].var)[v],
                );
            assert(d0.path_aliases@[i].stack < d0.stacks@.len());
        }
        assert forall|m: int|
            0 <= m < c_pa4@.len() implies (#[trigger] c_pa4@[m]).stack < ns && chop_wf(
            c_pa4@[m].chop,
        ) by {
            assert(just_flow_skip(d0.path_aliases@, d0.skip_funcs@, d0.instrs@, c_pa4@[m]));
            let (i, kk, v) = choose|i: int, kk: int, v: int|
                #![trigger d0.path_aliases@[i], xfer_of(d0.instrs@[kk], d0.path_aliases@[i].var)[v]]
                0 <= i < d0.path_aliases@.len() && 0 <= kk < d0.instrs@.len()
                    && d0.skip_funcs@.contains(
                    CallAddr { bin: d0.path_aliases@[i].cur_bin, addr: d0.path_aliases@[i].cur_addr },
                ) && d0.instrs@[kk].bin == d0.path_aliases@[i].cur_bin && d0.instrs@[kk].addr
                    == d0.path_aliases@[i].cur_addr && 0 <= v < xfer_of(
                    d0.instrs@[kk],
                    d0.path_aliases@[i].var,
                ).len() && xfer_of(d0.instrs@[kk], d0.path_aliases@[i].var)[v]
                    != crate::var::spec_reg(crate::var::REG_RET) && c_pa4@[m] == prop_concl(
                    d0.path_aliases@[i],
                    d0.instrs@[kk].fall,
                    xfer_of(d0.instrs@[kk], d0.path_aliases@[i].var)[v],
                );
            assert(d0.path_aliases@[i].stack < d0.stacks@.len());
        }
        assert forall|m: int|
            0 <= m < c_pa5@.len() implies (#[trigger] c_pa5@[m]).stack < ns && chop_wf(
            c_pa5@[m].chop,
        ) by {
            assert(just_flow_call(d0.path_aliases@, d0.instrs@, d0.call_sites@, d0.stacks@, c_pa5@[m]));
            let (i, kk, j, s2, v) = choose|i: int, kk: int, j: int, s2: int, v: int|
                #![trigger d0.path_aliases@[i], d0.call_sites@[j], d0.stacks@[s2], xfer_of(d0.instrs@[kk], d0.path_aliases@[i].var)[v]]
                0 <= i < d0.path_aliases@.len() && 0 <= kk < d0.instrs@.len() && 0 <= j
                    < d0.call_sites@.len() && 0 <= s2 < d0.stacks@.len() && d0.instrs@[kk].bin
                    == d0.path_aliases@[i].cur_bin && d0.instrs@[kk].addr
                    == d0.path_aliases@[i].cur_addr && d0.call_sites@[j].src_bin
                    == d0.path_aliases@[i].cur_bin && d0.call_sites@[j].src_addr
                    == d0.path_aliases@[i].cur_addr && d0.stacks@[s2].prev
                    == d0.path_aliases@[i].stack && d0.stacks@[s2].bin
                    == d0.path_aliases@[i].cur_bin && d0.stacks@[s2].ret == d0.instrs@[kk].fall
                    && crate::chop::chop_check_spec(
                    d0.path_aliases@[i].chop,
                    d0.call_sites@[j].dst_addr,
                ).len() > 0 && 0 <= v < xfer_of(d0.instrs@[kk], d0.path_aliases@[i].var).len()
                    && c_pa5@[m] == call_concl(
                    d0.path_aliases@[i],
                    d0.call_sites@[j],
                    s2,
                    crate::chop::chop_check_spec(
                        d0.path_aliases@[i].chop,
                        d0.call_sites@[j].dst_addr,
                    )[0],
                    xfer_of(d0.instrs@[kk], d0.path_aliases@[i].var)[v],
                );
            assert(chop_wf(d0.path_aliases@[i].chop));
            lemma_chop_check_wf(d0.path_aliases@[i].chop, d0.call_sites@[j].dst_addr);
        }
        assert forall|m: int|
            0 <= m < c_pa6@.len() implies (#[trigger] c_pa6@[m]).stack < ns && chop_wf(
            c_pa6@[m].chop,
        ) by {
            assert(just_flow_ret_pop(d0.path_aliases@, d0.instrs@, d0.stacks@, c_pa6@[m]));
            let (i, kk) = choose|i: int, kk: int|
                #![trigger d0.path_aliases@[i], d0.instrs@[kk]]
                0 <= i < d0.path_aliases@.len() && 0 <= kk < d0.instrs@.len() && d0.instrs@[kk].bin
                    == d0.path_aliases@[i].cur_bin && d0.instrs@[kk].addr
                    == d0.path_aliases@[i].cur_addr && d0.instrs@[kk].is_ret
                    && d0.path_aliases@[i].stack != 0 && d0.path_aliases@[i].stack
                    < d0.stacks@.len() && c_pa6@[m] == pop_concl(
                    d0.path_aliases@[i],
                    d0.stacks@[d0.path_aliases@[i].stack as int],
                );
            let sid = d0.path_aliases@[i].stack as int;
            assert((#[trigger] d0.stacks@[sid]).prev < sid);
        }
    }
    let ghost pas0 = db.path_aliases@;
    let c1 = insert_pas(&mut db.path_aliases, &c_pa2);
    proof {
        lemma_pa_insert_wf(pas0, db.path_aliases@, c_pa2@, d0.stacks@.len() as int);
    }
    let ghost pas1 = db.path_aliases@;
    let c2 = insert_pas(&mut db.path_aliases, &c_pa3);
    proof {
        lemma_pa_insert_wf(pas1, db.path_aliases@, c_pa3@, d0.stacks@.len() as int);
    }
    let ghost pas2 = db.path_aliases@;
    let c3 = insert_pas(&mut db.path_aliases, &c_pa4);
    proof {
        lemma_pa_insert_wf(pas2, db.path_aliases@, c_pa4@, d0.stacks@.len() as int);
    }
    let ghost pas3 = db.path_aliases@;
    let c4 = insert_pas(&mut db.path_aliases, &c_pa5);
    proof {
        lemma_pa_insert_wf(pas3, db.path_aliases@, c_pa5@, d0.stacks@.len() as int);
    }
    let ghost pas4 = db.path_aliases@;
    let c5 = insert_pas(&mut db.path_aliases, &c_pa6);
    proof {
        lemma_pa_insert_wf(pas4, db.path_aliases@, c_pa6@, d0.stacks@.len() as int);
    }
    let ch = c1 || c2 || c3 || c4 || c5;
    proof {
        lemma_prefix_refl(db.stacks@);
        lemma_poss_strings_refl(d0.poss_strings@, db.poss_strings@);
        lemma_printf_refl(d0.printf_likes@, db.printf_likes@);
        assert forall|i: int, kk: int|
            #![trigger d0.path_aliases@[i], d0.instrs@[kk]]
            0 <= i < d0.path_aliases@.len() && 0 <= kk < d0.instrs@.len() && (
            d0.free_calls@.contains(
                CallAddr { bin: d0.path_aliases@[i].cur_bin, addr: d0.path_aliases@[i].cur_addr },
            ) && pa_companion(d0.path_aliases@, d0.path_aliases@[i]) && d0.instrs@[kk].bin
                == d0.path_aliases@[i].cur_bin && d0.instrs@[kk].addr
                == d0.path_aliases@[i].cur_addr) implies has_pa(
            db.path_aliases@,
            free_concl(d0.path_aliases@[i], d0.instrs@[kk].fall),
        ) by {
            let g = free_concl(d0.path_aliases@[i], d0.instrs@[kk].fall);
            assert(c_pa2@.contains(g));
            let m = choose|m: int| 0 <= m < c_pa2@.len() && c_pa2@[m] == g;
            assert(has_pa(pas1, c_pa2@[m]));
        }
        assert forall|i: int, j: int, kk: int, v: int|
            #![trigger d0.path_aliases@[i], d0.succs@[j], xfer_of(d0.instrs@[kk], d0.path_aliases@[i].var)[v]]
            0 <= i < d0.path_aliases@.len() && 0 <= j < d0.succs@.len() && 0 <= kk
                < d0.instrs@.len() && (d0.succs@[j].bin == d0.path_aliases@[i].cur_bin
                && d0.succs@[j].src == d0.path_aliases@[i].cur_addr && !d0.succs@[j].is_call
                && d0.instrs@[kk].bin == d0.path_aliases@[i].cur_bin && d0.instrs@[kk].addr
                == d0.path_aliases@[i].cur_addr && 0 <= v < xfer_of(
                d0.instrs@[kk],
                d0.path_aliases@[i].var,
            ).len()) implies has_pa(
            db.path_aliases@,
            prop_concl(
                d0.path_aliases@[i],
                d0.succs@[j].sink,
                xfer_of(d0.instrs@[kk], d0.path_aliases@[i].var)[v],
            ),
        ) by {
            let g = prop_concl(
                d0.path_aliases@[i],
                d0.succs@[j].sink,
                xfer_of(d0.instrs@[kk], d0.path_aliases@[i].var)[v],
            );
            assert(c_pa3@.contains(g));
            let m = choose|m: int| 0 <= m < c_pa3@.len() && c_pa3@[m] == g;
            assert(has_pa(pas2, c_pa3@[m]));
        }
        assert forall|i: int, kk: int, v: int|
            #![trigger d0.path_aliases@[i], xfer_of(d0.instrs@[kk], d0.path_aliases@[i].var)[v]]
            0 <= i < d0.path_aliases@.len() && 0 <= kk < d0.instrs@.len() && (
            d0.skip_funcs@.contains(
                CallAddr { bin: d0.path_aliases@[i].cur_bin, addr: d0.path_aliases@[i].cur_addr },
            ) && d0.instrs@[kk].bin == d0.path_aliases@[i].cur_bin && d0.instrs@[kk].addr
                == d0.path_aliases@[i].cur_addr && 0 <= v < xfer_of(
                d0.instrs@[kk],
                d0.path_aliases@[i].var,
            ).len() && xfer_of(d0.instrs@[kk], d0.path_aliases@[i].var)[v]
                != crate::var::spec_reg(crate::var::REG_RET)) implies has_pa(
            db.path_aliases@,
            prop_concl(
                d0.path_aliases@[i],
                d0.instrs@[kk].fall,
                xfer_of(d0.instrs@[kk], d0.path_aliases@[i].var)[v],
            ),
        ) by {
            let g = prop_concl(
                d0.path_aliases@[i],
                d0.instrs@[kk].fall,
                xfer_of(d0.instrs@[kk], d0.path_aliases@[i].var)[v],
            );
            assert(c_pa4@.contains(g));
            let m = choose|m: int| 0 <= m < c_pa4@.len() && c_pa4@[m] == g;
            assert(has_pa(pas3, c_pa4@[m]));
        }
        assert forall|i: int, kk: int, j: int, s2: int, v: int|
            #![trigger d0.path_aliases@[i], d0.call_sites@[j], d0.stacks@[s2], xfer_of(d0.instrs@[kk], d0.path_aliases@[i].var)[v]]
            0 <= i < d0.path_aliases@.len() && 0 <= kk < d0.instrs@.len() && 0 <= j
                < d0.call_sites@.len() && 0 <= s2 < d0.stacks@.len() && (d0.instrs@[kk].bin
                == d0.path_aliases@[i].cur_bin && d0.instrs@[kk].addr
                == d0.path_aliases@[i].cur_addr && d0.call_sites@[j].src_bin
                == d0.path_aliases@[i].cur_bin && d0.call_sites@[j].src_addr
                == d0.path_aliases@[i].cur_addr && d0.stacks@[s2].prev
                == d0.path_aliases@[i].stack && d0.stacks@[s2].bin == d0.path_aliases@[i].cur_bin
                && d0.stacks@[s2].ret == d0.instrs@[kk].fall && crate::chop::chop_check_spec(
                d0.path_aliases@[i].chop,
                d0.call_sites@[j].dst_addr,
            ).len() > 0 && 0 <= v < xfer_of(d0.instrs@[kk], d0.path_aliases@[i].var).len()) implies has_pa(
            db.path_aliases@,
            call_concl(
                d0.path_aliases@[i],
                d0.call_sites@[j],
                s2,
                crate::chop::chop_check_spec(
                    d0.path_aliases@[i].chop,
                    d0.call_sites@[j].dst_addr,
                )[0],
                xfer_of(d0.instrs@[kk], d0.path_aliases@[i].var)[v],
            ),
        ) by {
            let g = call_concl(
                d0.path_aliases@[i],
                d0.call_sites@[j],
                s2,
                crate::chop::chop_check_spec(
                    d0.path_aliases@[i].chop,
                    d0.call_sites@[j].dst_addr,
                )[0],
                xfer_of(d0.instrs@[kk], d0.path_aliases@[i].var)[v],
            );
            assert(c_pa5@.contains(g));
            let m = choose|m: int| 0 <= m < c_pa5@.len() && c_pa5@[m] == g;
            assert(has_pa(pas4, c_pa5@[m]));
        }
        assert forall|i: int, kk: int|
            #![trigger d0.path_aliases@[i], d0.instrs@[kk]]
            0 <= i < d0.path_aliases@.len() && 0 <= kk < d0.instrs@.len() && (d0.instrs@[kk].bin
                == d0.path_aliases@[i].cur_bin && d0.instrs@[kk].addr
                == d0.path_aliases@[i].cur_addr && d0.instrs@[kk].is_ret
                && d0.path_aliases@[i].stack != 0 && d0.path_aliases@[i].stack
                < d0.stacks@.len()) implies has_pa(
            db.path_aliases@,
            pop_concl(d0.path_aliases@[i], d0.stacks@[d0.path_aliases@[i].stack as int]),
        ) by {
            let g = pop_concl(d0.path_aliases@[i], d0.stacks@[d0.path_aliases@[i].stack as int]);
            assert(c_pa6@.contains(g));
            let m = choose|m: int| 0 <= m < c_pa6@.len() && c_pa6@[m] == g;
            assert(has_pa(db.path_aliases@, c_pa6@[m]));
        }
    }
    ch
}

/// One pass of the empty-context return rule.
#[verifier::rlimit(60)]
pub fn step_uaf2(db: &mut Db) -> (ch: bool)
    requires
        db_wf(*old(db)),
    ensures
        db_wf(*final(db)),
        db_grows(*old(db), *final(db)),
        !ch ==> db_eq(*old(db), *final(db)),
        closed_flow_ret_notarget(
            old(db).path_aliases@,
            old(db).funcs@,
            old(db).call_sites@,
            old(db).instrs@,
            final(db).path_aliases@,
        ),
{
    let ghost d0 = *old(db);
    let c_pa7 = derive_flow_ret_notarget(&db.path_aliases, &db.funcs, &db.call_sites, &db.instrs);
    proof {
        let ns = d0.stacks@.len() as int;
        assert forall|m: int|
            0 <= m < c_pa7@.len() implies (#[trigger] c_pa7@[m]).stack < ns && chop_wf(
            c_pa7@[m].chop,
        ) by {
            assert(just_flow_ret_notarget(
                d0.path_aliases@,
                d0.funcs@,
                d0.call_sites@,
                d0.instrs@,
                c_pa7@[m],
            ));
            let (i, j, kk, mm, m2) = choose|i: int, j: int, kk: int, mm: int, m2: int|
                #![trigger d0.path_aliases@[i], d0.funcs@[j], d0.call_sites@[kk], d0.instrs@[mm], d0.instrs@[m2]]
                0 <= i < d0.path_aliases@.len() && 0 <= j < d0.funcs@.len() && 0 <= kk
                    < d0.call_sites@.len() && 0 <= mm < d0.instrs@.len() && 0 <= m2
                    < d0.instrs@.len() && d0.path_aliases@[i].stack == 0 && d0.funcs@[j].bin
                    == d0.path_aliases@[i].cur_bin && d0.funcs@[j].addr
                    == d0.path_aliases@[i].cur_addr && d0.call_sites@[kk].dst_bin
                    == d0.path_aliases@[i].cur_bin && d0.call_sites@[kk].dst_addr
                    == d0.funcs@[j].entry && d0.instrs@[mm].bin == d0.path_aliases@[i].cur_bin
                    && d0.instrs@[mm].addr == d0.path_aliases@[i].cur_addr
                    && d0.instrs@[mm].is_ret && d0.instrs@[m2].bin == d0.call_sites@[kk].src_bin
                    && d0.instrs@[m2].addr == d0.call_sites@[kk].src_addr
                    && crate::chop::chop_check_spec(
                    d0.path_aliases@[i].chop,
                    d0.funcs@[j].entry,
                ).len() > 0 && c_pa7@[m] == retno_concl(
                    d0.path_aliases@[i],
                    d0.call_sites@[kk],
                    d0.instrs@[m2].fall,
                    crate::chop::chop_check_spec(d0.path_aliases@[i].chop, d0.funcs@[j].entry)[0],
                );
            assert(chop_wf(d0.path_aliases@[i].chop));
            lemma_chop_check_wf(d0.path_aliases@[i].chop, d0.funcs@[j].entry);
        }
    }
    let ghost pas0 = db.path_aliases@;
    let ch = insert_pas(&mut db.path_aliases, &c_pa7);
    proof {
        lemma_pa_insert_wf(pas0, db.path_aliases@, c_pa7@, d0.stacks@.len() as int);
        lemma_prefix_refl(db.stacks@);
        lemma_poss_strings_refl(d0.poss_strings@, db.poss_strings@);
        lemma_printf_refl(d0.printf_likes@, db.printf_likes@);
        assert forall|i: int, j: int, kk: int, mm: int, m2: int|
            #![trigger d0.path_aliases@[i], d0.funcs@[j], d0.call_sites@[kk], d0.instrs@[mm], d0.instrs@[m2]]
            0 <= i < d0.path_aliases@.len() && 0 <= j < d0.funcs@.len() && 0 <= kk
                < d0.call_sites@.len() && 0 <= mm < d0.instrs@.len() && 0 <= m2 < d0.instrs@.len()
                && (d0.path_aliases@[i].stack == 0 && d0.funcs@[j].bin
                == d0.path_aliases@[i].cur_bin && d0.funcs@[j].addr == d0.path_aliases@[i].cur_addr
                && d0.call_sites@[kk].dst_bin == d0.path_aliases@[i].cur_bin
                && d0.call_sites@[kk].dst_addr == d0.funcs@[j].entry && d0.instrs@[mm].bin
                == d0.path_aliases@[i].cur_bin && d0.instrs@[mm].addr
                == d0.path_aliases@[i].cur_addr && d0.instrs@[mm].is_ret && d0.instrs@[m2].bin
                == d0.call_sites@[kk].src_bin && d0.instrs@[m2].addr
                == d0.call_sites@[kk].src_addr && crate::chop::chop_check_spec(
                d0.path_aliases@[i].chop,
                d0.funcs@[j].entry,
            ).len() > 0) implies has_pa(
            db.path_aliases@,
            retno_concl(
                d0.path_aliases@[i],
                d0.call_sites@[kk],
                d0.instrs@[m2].fall,
                crate::chop::chop_check_spec(d0.path_aliases@[i].chop, d0.funcs@[j].entry)[0],
            ),
        ) by {
            let g = retno_concl(
                d0.path_aliases@[i],
                d0.call_sites@[kk],
                d0.instrs@[m2].fall,
                crate::chop::chop_check_spec(d0.path_aliases@[i].chop, d0.funcs@[j].entry)[0],
            );
            assert(c_pa7@.contains(g));
            let m = choose|m: int| 0 <= m < c_pa7@.len() && c_pa7@[m] == g;
            assert(has_pa(db.path_aliases@, c_pa7@[m]));
        }
    }
    ch
}

/// One pass of the trace seeding and propagation rules.
#[verifier::rlimit(100)]
pub fn step_trace1(db: &mut Db) -> (ch: bool)
    requires
        db_wf(*old(db)),
    ensures
        db_wf(*final(db)),
        db_grows(*old(db), *final(db)),
        !ch ==> db_eq(*old(db), *final(db)),
        rule_trace_start(old(db).uaf_flows@, old(db).path_aliases@, old(db).succ_overs@, final(db).traces@),
        rule_trace_free(old(db).traces@, old(db).free_calls@, old(db).instrs@, old(db).max_trace_len, final(db).traces@),
        rule_trace_prop(old(db).traces@, old(db).succs@, old(db).instrs@, old(db).max_trace_len, final(db).traces@),
        rule_trace_skip(old(db).traces@, old(db).skip_funcs@, old(db).instrs@, old(db).max_trace_len, final(db).traces@),
        rule_trace_call(old(db).traces@, old(db).instrs@, old(db).call_sites@, old(db).stacks@, old(db).max_trace_len, final(db).traces@),
        rule_trace_ret_pop(old(db).traces@, old(db).instrs@, old(db).stacks@, old(db).max_trace_len, final(db).traces@),
{
    let ghost d0 = *old(db);
    let max = db.max_trace_len;
    let c_tr1 = derive_trace_start(&db.uaf_flows, &db.path_aliases, &db.succ_overs);
    let c_tr2 = derive_trace_free(&db.traces, &db.free_calls, &db.instrs, max);
    let c_tr3 = derive_trace_prop(&db.traces, &db.succs, &db.instrs, max);
    let c_tr4 = derive_trace_skip(&db.traces, &db.skip_funcs, &db.instrs, max);
    let c_tr5 = derive_trace_call(&db.traces, &db.instrs, &db.call_sites, &db.stacks, max);
    let c_tr6 = derive_trace_ret_pop(&db.traces, &db.instrs, &db.stacks, max);
    proof {
        let ns = d0.stacks@.len() as int;
        assert forall|m: int|
            0 <= m < c_tr1@.len() implies (#[trigger] c_tr1@[m]).stack < ns && c_tr1@[m].len
            <= max by {
            assert(just_trace_start(d0.uaf_flows@, d0.path_aliases@, d0.succ_overs@, c_tr1@[m]));
        }
        assert forall|m: int|
            0 <= m < c_tr2@.len() implies (#[trigger] c_tr2@[m]).stack < ns && c_tr2@[m].len
            <= max by {
            assert(just_trace_free(d0.traces@, d0.free_calls@, d0.instrs@, max, c_tr2@[m]));
            let (i, kk) = choose|i: int, kk: int|
                #![trigger d0.traces@[i], d0.instrs@[kk]]
                0 <= i < d0.traces@.len() && d0.traces@[i].len < max && 0 <= kk
                    < d0.instrs@.len() && d0.free_calls@.contains(
                    CallAddr { bin: d0.traces@[i].cur_bin, addr: d0.traces@[i].cur_addr },
                ) && tr_companion(d0.traces@, d0.traces@[i]) && d0.instrs@[kk].bin
                    == d0.traces@[i].cur_bin && d0.instrs@[kk].addr == d0.traces@[i].cur_addr
                    && c_tr2@[m] == tr_free_concl(d0.traces@[i], d0.instrs@[kk].fall);
            assert(d0.traces@[i].stack < d0.stacks@.len());
        }
        assert forall|m: int|
            0 <= m < c_tr3@.len() implies (#[trigger] c_tr3@[m]).stack < ns && c_tr3@[m].len
            <= max by {
            assert(just_trace_prop(d0.traces@, d0.succs@, d0.instrs@, max, c_tr3@[m]));
            let (i, j, kk, v) = choose|i: int, j: int, kk: int, v: int|
                #![trigger d0.traces@[i], d0.succs@[j], xfer_of(d0.instrs@[kk], d0.traces@[i].var)[v]]
                0 <= i < d0.traces@.len() && d0.traces@[i].len < max && 0 <= j < d0.succs@.len()
                    && 0 <= kk < d0.instrs@.len() && d0.succs@[j].bin == d0.traces@[i].cur_bin
                    && d0.succs@[j].src == d0.traces@[i].cur_addr && !d0.succs@[j].is_call
                    && d0.instrs@[kk].bin == d0.traces@[i].cur_bin && d0.instrs@[kk].addr
                    == d0.traces@[i].cur_addr && 0 <= v < xfer_of(
                    d0.instrs@[kk],
                    d0.traces@[i].var,
                ).len() && c_tr3@[m] == tr_prop_concl(
                    d0.traces@[i],
                    d0.succs@[j].sink,
                    xfer_of(d0.instrs@[kk], d0.traces@[i].var)[v],
                );
            assert(d0.traces@[i].stack < d0.stacks@.len());
        }
        assert forall|m: int|
            0 <= m < c_tr4@.len() implies (#[trigger] c_tr4@[m]).stack < ns && c_tr4@[m].len
            <= max by {
            assert(just_trace_skip(d0.traces@, d0.skip_funcs@, d0.instrs@, max, c_tr4@[m]));
            let (i, kk, v) = choose|i: int, kk: int, v: int|
                #![trigger d0.traces@[i], xfer_of(d0.instrs@[kk], d0.traces@[i].var)[v]]
                0 <= i < d0.traces@.len() && d0.traces@[i].len < max && 0 <= kk
                    < d0.instrs@.len() && d0.skip_funcs@.contains(
                    CallAddr { bin: d0.traces@[i].cur_bin, addr: d0.traces@[i].cur_addr },
                ) && d0.instrs@[kk].bin == d0.traces@[i].cur_bin && d0.instrs@[kk].addr
                    == d0.traces@[i].cur_addr && 0 <= v < xfer_of(
                    d0.instrs@[kk],
                    d0.traces@[i].var,
                ).len() && xfer_of(d0.instrs@[kk], d0.traces@[i].var)[v] != crate::var::spec_reg(
                    crate::var::REG_RET,
                ) && c_tr4@[m] == tr_prop_concl(
                    d0.traces@[i],
                    d0.instrs@[kk].fall,
                    xfer_of(d0.instrs@[kk], d0.traces@[i].var)[v],
                );
            assert(d0.traces@[i].stack < d0.stacks@.len());
        }
        assert forall|m: int|
            0 <= m < c_tr5@.len() implies (#[trigger] c_tr5@[m]).stack < ns && c_tr5@[m].len
            <= max by {
            assert(just_trace_call(d0.traces@, d0.instrs@, d0.call_sites@, d0.stacks@, max, c_tr5@[m]));
            let (i, kk, j, s2, v) = choose|i: int, kk: int, j: int, s2: int, v: int|
                #![trigger d0.traces@[i], d0.call_sites@[j], d0.stacks@[s2], xfer_of(d0.instrs@[kk], d0.traces@[i].var)[v]]
                0 <= i < d0.traces@.len() && d0.traces@[i].len < max && 0 <= kk
                    < d0.instrs@.len() && 0 <= j < d0.call_sites@.len() && 0 <= s2
                    < d0.stacks@.len() && d0.instrs@[kk].bin == d0.traces@[i].cur_bin
                    && d0.instrs@[kk].addr == d0.traces@[i].cur_addr && d0.call_sites@[j].src_bin
                    == d0.traces@[i].cur_bin && d0.call_sites@[j].src_addr
                    == d0.traces@[i].cur_addr && d0.stacks@[s2].prev == d0.traces@[i].stack
                    && d0.stacks@[s2].bin == d0.traces@[i].cur_bin && d0.stacks@[s2].ret
                    == d0.instrs@[kk].fall && 0 <= v < xfer_of(
                    d0.instrs@[kk],
                    d0.traces@[i].var,
                ).len() && c_tr5@[m] == tr_call_concl(
                    d0.traces@[i],
                    d0.call_sites@[j],
                    s2,
                    xfer_of(d0.instrs@[kk], d0.traces@[i].var)[v],
                );
            assert(0 <= s2 < d0.stacks@.len());
        }
        assert forall|m: int|
            0 <= m < c_tr6@.len() implies (#[trigger] c_tr6@[m]).stack < ns && c_tr6@[m].len
            <= max by {
            assert(just_trace_ret_pop(d0.traces@, d0.instrs@, d0.stacks@, max, c_tr6@[m]));
            let (i, kk) = choose|i: int, kk: int|
                #![trigger d0.traces@[i], d0.instrs@[kk]]
                0 <= i < d0.traces@.len() && d0.traces@[i].len < max && 0 <= kk
                    < d0.instrs@.len() && d0.instrs@[kk].bin == d0.traces@[i].cur_bin
                    && d0.instrs@[kk].addr == d0.traces@[i].cur_addr && d0.instrs@[kk].is_ret
                    && d0.traces@[i].stack != 0 && d0.traces@[i].stack < d0.stacks@.len()
                    && c_tr6@[m] == tr_pop_concl(
                    d0.traces@[i],
                    d0.stacks@[d0.traces@[i].stack as int],
                );
            let sid = d0.traces@[i].stack as int;
            assert((#[trigger] d0.stacks@[sid]).prev < sid);
        }
    }
    let ghost tr0 = db.traces@;
    let c1 = insert_trace_fact(&mut db.traces, &c_tr1);
    proof {
        lemma_traces_insert_wf(tr0, db.traces@, c_tr1@, d0.stacks@.len() as int, max);
    }
    let ghost tr1 = db.traces@;
    let c2 = insert_trace_fact(&mut db.traces, &c_tr2);
    proof {
        lemma_traces_insert_wf(tr1, db.traces@, c_tr2@, d0.stacks@.len() as int, max);
    }
    let ghost tr2 = db.traces@;
    let c3 = insert_trace_fact(&mut db.traces, &c_tr3);
    proof {
        lemma_traces_insert_wf(tr2, db.traces@, c_tr3@, d0.stacks@.len() as int, max);
    }
    let ghost tr3 = db.traces@;
    let c4 = insert_trace_fact(&mut db.traces, &c_tr4);
    proof {
        lemma_traces_insert_wf(tr3, db.traces@, c_tr4@, d0.stacks@.len() as int, max);
    }
    let ghost tr4 = db.traces@;
    let c5 = insert_trace_fact(&mut db.traces, &c_tr5);
    proof {
        lemma_traces_insert_wf(tr4, db.traces@, c_tr5@, d0.stacks@.len() as int, max);
    }
    let ghost tr5 = db.traces@;
    let c6 = insert_trace_fact(&mut db.traces, &c_tr6);
    proof {
        lemma_traces_insert_wf(tr5, db.traces@, c_tr6@, d0.stacks@.len() as int, max);
    }
    let ch = c1 || c2 || c3 || c4 || c5 || c6;
    proof {
        lemma_prefix_refl(db.stacks@);
        lemma_poss_strings_refl(d0.poss_strings@, db.poss_strings@);
        lemma_printf_refl(d0.printf_likes@, db.printf_likes@);
        assert(rule_trace_start(d0.uaf_flows@, d0.path_aliases@, d0.succ_overs@, db.traces@)) by {
            assert forall|i: int, i2: int, j: int|
                #![trigger d0.uaf_flows@[i], d0.path_aliases@[i2], d0.succ_overs@[j]]
                0 <= i < d0.uaf_flows@.len() && 0 <= i2 < d0.path_aliases@.len() && 0 <= j
                    < d0.succ_overs@.len() && d0.succ_overs@[j].bin == d0.uaf_flows@[i].src_bin
                    && d0.succ_overs@[j].addr == d0.uaf_flows@[i].src_addr
                    && d0.path_aliases@[i2].src_bin == d0.uaf_flows@[i].src_bin
                    && d0.path_aliases@[i2].src_addr == d0.uaf_flows@[i].src_addr
                    && d0.path_aliases@[i2].cur_bin == d0.uaf_flows@[i].src_bin
                    && d0.path_aliases@[i2].cur_addr == d0.succ_overs@[j].next implies db.traces@.contains(
                PathAliasTrace {
                    src_bin: d0.uaf_flows@[i].src_bin,
                    src_addr: d0.uaf_flows@[i].src_addr,
                    alias_set: d0.uaf_flows@[i].alias_set,
                    stack: 0,
                    cur_bin: d0.uaf_flows@[i].src_bin,
                    cur_addr: d0.succ_overs@[j].next,
                    var: d0.path_aliases@[i2].var,
                    freed: false,
                    len: 0,
                },
            ) by {
                assert(c_tr1@.contains(
                    PathAliasTrace {
                        src_bin: d0.uaf_flows@[i].src_bin,
                        src_addr: d0.uaf_flows@[i].src_addr,
                        alias_set: d0.uaf_flows@[i].alias_set,
                        stack: 0,
                        cur_bin: d0.uaf_flows@[i].src_bin,
                        cur_addr: d0.succ_overs@[j].next,
                        var: d0.path_aliases@[i2].var,
                        freed: false,
                        len: 0,
                    },
                ));
            }
        }
        assert(rule_trace_free(d0.traces@, d0.free_calls@, d0.instrs@, max, db.traces@)) by {
            assert forall|i: int, kk: int|
                #![trigger d0.traces@[i], d0.instrs@[kk]]
                0 <= i < d0.traces@.len() && d0.traces@[i].len < max && 0 <= kk
                    < d0.instrs@.len() && d0.free_calls@.contains(
                    CallAddr { bin: d0.traces@[i].cur_bin, addr: d0.traces@[i].cur_addr },
                ) && tr_companion(d0.traces@, d0.traces@[i]) && d0.instrs@[kk].bin
                    == d0.traces@[i].cur_bin && d0.instrs@[kk].addr == d0.traces@[i].cur_addr implies db.traces@.contains(
                tr_free_concl(d0.traces@[i], d0.instrs@[kk].fall),
            ) by {
                assert(c_tr2@.contains(tr_free_concl(d0.traces@[i], d0.instrs@[kk].fall)));
            }
        }
        assert(rule_trace_prop(d0.traces@, d0.succs@, d0.instrs@, max, db.traces@)) by {
            assert forall|i: int, j: int, kk: int, v: int|
                #![trigger d0.traces@[i], d0.succs@[j], xfer_of(d0.instrs@[kk], d0.traces@[i].var)[v]]
                0 <= i < d0.traces@.len() && d0.traces@[i].len < max && 0 <= j < d0.succs@.len()
                    && 0 <= kk < d0.instrs@.len() && d0.succs@[j].bin == d0.traces@[i].cur_bin
                    && d0.succs@[j].src == d0.traces@[i].cur_addr && !d0.succs@[j].is_call
                    && d0.instrs@[kk].bin == d0.traces@[i].cur_bin && d0.instrs@[kk].addr
                    == d0.traces@[i].cur_addr && 0 <= v < xfer_of(
                    d0.instrs@[kk],
                    d0.traces@[i].var,
                ).len() implies db.traces@.contains(
                tr_prop_concl(
                    d0.traces@[i],
                    d0.succs@[j].sink,
                    xfer_of(d0.instrs@[kk], d0.traces@[i].var)[v],
                ),
            ) by {
                assert(c_tr3@.contains(
                    tr_prop_concl(
                        d0.traces@[i],
                        d0.succs@[j].sink,
                        xfer_of(d0.instrs@[kk], d0.traces@[i].var)[v],
                    ),
                ));
            }
        }
        assert(rule_trace_skip(d0.traces@, d0.skip_funcs@, d0.instrs@, max, db.traces@)) by {
            assert forall|i: int, kk: int, v: int|
                #![trigger d0.traces@[i], xfer_of(d0.instrs@[kk], d0.traces@[i].var)[v]]
                0 <= i < d0.traces@.len() && d0.traces@[i].len < max && 0 <= kk
                    < d0.instrs@.len() && d0.skip_funcs@.contains(
                    CallAddr { bin: d0.traces@[i].cur_bin, addr: d0.traces@[i].cur_addr },
                ) && d0.instrs@[kk].bin == d0.traces@[i].cur_bin && d0.instrs@[kk].addr
                    == d0.traces@[i].cur_addr && 0 <= v < xfer_of(
                    d0.instrs@[kk],
                    d0.traces@[i].var,
                ).len() && xfer_of(d0.instrs@[kk], d0.traces@[i].var)[v] != crate::var::spec_reg(
                    crate::var::REG_RET,
                ) implies db.traces@.contains(
                tr_prop_concl(
                    d0.traces@[i],
                    d0.instrs@[kk].fall,
                    xfer_of(d0.instrs@[kk], d0.traces@[i].var)[v],
                ),
            ) by {
                assert(c_tr4@.contains(
                    tr_prop_concl(
                        d0.traces@[i],
                        d0.instrs@[kk].fall,
                        xfer_of(d0.instrs@[kk], d0.traces@[i].var)[v],
                    ),
                ));
            }
        }
        assert(rule_trace_call(d0.traces@, d0.instrs@, d0.call_sites@, d0.stacks@, max, db.traces@)) by {
            assert forall|i: int, kk: int, j: int, s2: int, v: int|
                #![trigger d0.traces@[i], d0.call_sites@[j], d0.stacks@[s2], xfer_of(d0.instrs@[kk], d0.traces@[i].var)[v]]
                0 <= i < d0.traces@.len() && d0.traces@[i].len < max && 0 <= kk
                    < d0.instrs@.len() && 0 <= j < d0.call_sites@.len() && 0 <= s2
                    < d0.stacks@.len() && d0.instrs@[kk].bin == d0.traces@[i].cur_bin
                    && d0.instrs@[kk].addr == d0.traces@[i].cur_addr && d0.call_sites@[j].src_bin
                    == d0.traces@[i].cur_bin && d0.call_sites@[j].src_addr
                    == d0.traces@[i].cur_addr && d0.stacks@[s2].prev == d0.traces@[i].stack
                    && d0.stacks@[s2].bin == d0.traces@[i].cur_bin && d0.stacks@[s2].ret
                    == d0.instrs@[kk].fall && 0 <= v < xfer_of(
                    d0.instrs@[kk],
                    d0.traces@[i].var,
                ).len() implies db.traces@.contains(
                tr_call_concl(
                    d0.traces@[i],
                    d0.call_sites@[j],
                    s2,
                    xfer_of(d0.instrs@[kk], d0.traces@[i].var)[v],
                ),
            ) by {
                assert(c_tr5@.contains(
                    tr_call_concl(
                        d0.traces@[i],
                        d0.call_sites@[j],
                        s2,
                        xfer_of(d0.instrs@[kk], d0.traces@[i].var)[v],
                    ),
                ));
            }
        }
        assert(rule_trace_ret_pop(d0.traces@, d0.instrs@, d0.stacks@, max, db.traces@)) by {
            assert forall|i: int, kk: int|
                #![trigger d0.traces@[i], d0.instrs@[kk]]
                0 <= i < d0.traces@.len() && d0.traces@[i].len < max && 0 <= kk
                    < d0.instrs@.len() && d0.instrs@[kk].bin == d0.traces@[i].cur_bin
                    && d0.instrs@[kk].addr == d0.traces@[i].cur_addr && d0.instrs@[kk].is_ret
                    && d0.traces@[i].stack != 0 && d0.traces@[i].stack < d0.stacks@.len() implies db.traces@.contains(
                tr_pop_concl(d0.traces@[i], d0.stacks@[d0.traces@[i].stack as int]),
            ) by {
                assert(c_tr6@.contains(
                    tr_pop_concl(d0.traces@[i], d0.stacks@[d0.traces@[i].stack as int]),
                ));
            }
        }
    }
    ch
}

/// One pass of the trace empty-context return rule.
#[verifier::rlimit(60)]
pub fn step_trace2(db: &mut Db) -> (ch: bool)
    requires
        db_wf(*old(db)),
    ensures
        db_wf(*final(db)),
        db_grows(*old(db), *final(db)),
        !ch ==> db_eq(*old(db), *final(db)),
        rule_trace_ret_notarget(
            old(db).traces@,
            old(db).funcs@,
            old(db).call_sites@,
            old(db).instrs@,
            old(db).max_trace_len,
            final(db).traces@,
        ),
{
    let ghost d0 = *old(db);
    let max = db.max_trace_len;
    let c_tr7 = derive_trace_ret_notarget(&db.traces, &db.funcs, &db.call_sites, &db.instrs, max);
    proof {
        let ns = d0.stacks@.len() as int;
        assert forall|m: int|
            0 <= m < c_tr7@.len() implies (#[trigger] c_tr7@[m]).stack < ns && c_tr7@[m].len
            <= max by {
            assert(just_trace_ret_notarget(
                d0.traces@,
                d0.funcs@,
                d0.call_sites@,
                d0.instrs@,
                max,
                c_tr7@[m],
            ));
        }
    }
    let ghost tr0 = db.traces@;
    let ch = insert_trace_fact(&mut db.traces, &c_tr7);
    proof {
        lemma_traces_insert_wf(tr0, db.traces@, c_tr7@, d0.stacks@.len() as int, max);
        lemma_prefix_refl(db.stacks@);
        lemma_poss_strings_refl(d0.poss_strings@, db.poss_strings@);
        lemma_printf_refl(d0.printf_likes@, db.printf_likes@);
        assert forall|i: int, j: int, kk: int, mm: int, m2: int|
            #![trigger d0.traces@[i], d0.funcs@[j], d0.call_sites@[kk], d0.instrs@[mm], d0.instrs@[m2]]
            0 <= i < d0.traces@.len() && d0.traces@[i].len < max && 0 <= j < d0.funcs@.len() && 0
                <= kk < d0.call_sites@.len() && 0 <= mm < d0.instrs@.len() && 0 <= m2
                < d0.instrs@.len() && (d0.traces@[i].stack == 0 && d0.funcs@[j].bin
                == d0.traces@[i].cur_bin && d0.funcs@[j].addr == d0.traces@[i].cur_addr
                && d0.call_sites@[kk].dst_bin == d0.traces@[i].cur_bin
                && d0.call_sites@[kk].dst_addr == d0.funcs@[j].entry && d0.instrs@[mm].bin
                == d0.traces@[i].cur_bin && d0.instrs@[mm].addr == d0.traces@[i].cur_addr
                && d0.instrs@[mm].is_ret && d0.instrs@[m2].bin == d0.call_sites@[kk].src_bin
                && d0.instrs@[m2].addr == d0.call_sites@[kk].src_addr) implies db.traces@.contains(
            tr_retno_concl(d0.traces@[i], d0.call_sites@[kk], d0.instrs@[m2].fall),
        ) by {
            assert(c_tr7@.contains(
                tr_retno_concl(d0.traces@[i], d0.call_sites@[kk], d0.instrs@[m2].fall),
            ));
        }
    }
    ch
}

/// One pass of the finding rules.
pub fn step_grading(db: &mut Db) -> (ch: bool)
    requires
        db_wf(*old(db)),
    ensures
        db_wf(*final(db)),
        db_grows(*old(db), *final(db)),
        !ch ==> db_eq(*old(db), *final(db)),
        rule_uaf_finalize(old(db).traces@, old(db).instrs@, final(db).uafs@),
        rule_uaf_finalize_use(old(db).traces@, old(db).func_uses@, final(db).uafs@),
{
    let ghost d0 = *old(db);
    let c_uaf1 = derive_uaf_finalize(&db.traces, &db.instrs);
    let c_uaf2 = derive_uaf_finalize_use(&db.traces, &db.func_uses);
    let c1 = insert_uaf(&mut db.uafs, &c_uaf1);
    let c2 = insert_uaf(&mut db.uafs, &c_uaf2);
    let ch = c1 || c2;
    proof {
        lemma_prefix_refl(db.stacks@);
        lemma_poss_strings_refl(d0.poss_strings@, db.poss_strings@);
        lemma_printf_refl(d0.printf_likes@, db.printf_likes@);
        assert forall|i: int, j: int|
            #![trigger d0.traces@[i], d0.instrs@[j]]
            0 <= i < d0.traces@.len() && 0 <= j < d0.instrs@.len() && (d0.traces@[i].freed
                && d0.instrs@[j].bin == d0.traces@[i].cur_bin && d0.instrs@[j].addr
                == d0.traces@[i].cur_addr && crate::analyses::deref_var_sema_spec(
                d0.instrs@[j].sema,
                d0.traces@[i].var,
            )) implies db.uafs@.contains(
            Uaf {
                src_bin: d0.traces@[i].src_bin,
                src_addr: d0.traces@[i].src_addr,
                alias_set: d0.traces@[i].alias_set,
                sink_bin: d0.traces@[i].cur_bin,
                sink_addr: d0.traces@[i].cur_addr,
                var: d0.traces@[i].var,
                stack: d0.traces@[i].stack,
                len: d0.traces@[i].len,
            },
        ) by {
            assert(c_uaf1@.contains(
                Uaf {
                    src_bin: d0.traces@[i].src_bin,
                    src_addr: d0.traces@[i].src_addr,
                    alias_set: d0.traces@[i].alias_set,
                    sink_bin: d0.traces@[i].cur_bin,
                    sink_addr: d0.traces@[i].cur_addr,
                    var: d0.traces@[i].var,
                    stack: d0.traces@[i].stack,
                    len: d0.traces@[i].len,
                },
            ));
        }
        assert forall|i: int, j: int|
            #![trigger d0.traces@[i], d0.func_uses@[j]]
            0 <= i < d0.traces@.len() && 0 <= j < d0.func_uses@.len() && (d0.traces@[i].freed
                && d0.func_uses@[j].bin == d0.traces@[i].cur_bin && d0.func_uses@[j].addr
                == d0.traces@[i].cur_addr && d0.func_uses@[j].var == d0.traces@[i].var) implies db.uafs@.contains(
            Uaf {
                src_bin: d0.traces@[i].src_bin,
                src_addr: d0.traces@[i].src_addr,
                alias_set: d0.traces@[i].alias_set,
                sink_bin: d0.traces@[i].cur_bin,
                sink_addr: d0.traces@[i].cur_addr,
                var: d0.traces@[i].var,
                stack: d0.traces@[i].stack,
                len: d0.traces@[i].len,
            },
        ) by {
            assert(c_uaf2@.contains(
                Uaf {
                    src_bin: d0.traces@[i].src_bin,
                    src_addr: d0.traces@[i].src_addr,
                    alias_set: d0.traces@[i].alias_set,
                    sink_bin: d0.traces@[i].cur_bin,
                    sink_addr: d0.traces@[i].cur_addr,
                    var: d0.traces@[i].var,
                    stack: d0.traces@[i].stack,
                    len: d0.traces@[i].len,
                },
            ));
        }
    }
    ch
}

/// Runs every rule of every stage up to `k` to quiescence, within the
/// given fuel: each pass derives from the committed facts and inserts the
/// conclusions. A pass that inserts nothing witnesses that the store is
/// closed under those stages. Exhausted fuel reports non-quiescence: the
/// store then holds a sound lower bound, never a wrong fact.
#[verifier::rlimit(60)]
pub fn run_upto(db: &mut Db, k: u8, fuel: u64) -> (q: bool)
    requires
        db_wf(*old(db)),
        1 <= k <= 7,
    ensures
        db_wf(*final(db)),
        db_grows(*old(db), *final(db)),
        q ==> closed_upto(*final(db), k as int),
{
    let mut fuel = fuel;
    proof {
        lemma_prefix_refl(db.stacks@);
        lemma_poss_strings_refl(old(db).poss_strings@, db.poss_strings@);
        lemma_printf_refl(old(db).printf_likes@, db.printf_likes@);
    }
    while fuel > 0
        invariant
            1 <= k <= 7,
            db_wf(*db),
            db_grows(*old(db), *db),
        decreases fuel,
    {
        let ghost g0 = *db;
        let mut ch = step_basic(db);
        proof {
            lemma_db_grows_trans(*old(db), g0, *db);
        }
        let ghost g1 = *db;
        let mut c2 = false;
        if k >= 2 {
            c2 = step_stage2(db);
            proof {
                lemma_db_grows_trans(*old(db), g1, *db);
            }
        }
        let ghost g2 = *db;
        let mut c3 = false;
        let mut c4 = false;
        if k >= 3 {
            c3 = step_uaf1_seeds(db);
            proof {
                lemma_db_grows_trans(*old(db), g2, *db);
            }
            let ghost g3a = *db;
            c4 = step_uaf1_flows(db);
            proof {
                lemma_db_grows_trans(*old(db), g3a, *db);
            }
        }
        let ghost g3 = *db;
        let mut c5 = false;
        if k >= 4 {
            c5 = step_uaf2(db);
            proof {
                lemma_db_grows_trans(*old(db), g3, *db);
            }
        }
        let ghost g4 = *db;
        let mut c6 = false;
        if k >= 5 {
            c6 = step_trace1(db);
            proof {
                lemma_db_grows_trans(*old(db), g4, *db);
            }
        }
        let ghost g5 = *db;
        let mut c7 = false;
        if k >= 6 {
            c7 = step_trace2(db);
            proof {
                lemma_db_grows_trans(*old(db), g5, *db);
            }
        }
        let ghost g6 = *db;
        let mut c8 = false;
        if k >= 7 {
            c8 = step_grading(db);
            proof {
                lemma_db_grows_trans(*old(db), g6, *db);
            }
        }
        ch = ch || c2 || c3 || c4 || c5 || c6 || c7 || c8;
        if !ch {
            proof {
                assert(db_eq(g0, *db));
            }
            return true;
        }
        fuel = fuel - 1;
    }
    false
}

/// Runs the reachability and call-classification stage to quiescence.
pub fn basic_setup(db: &mut Db, fuel: u64) -> (q: bool)
    requires
        db_wf(*old(db)),
    ensures
        db_wf(*final(db)),
        db_grows(*old(db), *final(db)),
        q ==> closed_upto(*final(db), 1),
{
    run_upto(db, 1, fuel)
}

/// Runs the step-over, call-edge and function-span stage to quiescence,
/// with the earlier stage's rules still active.
pub fn setup_stage2(db: &mut Db, fuel: u64) -> (q: bool)
    requires
        db_wf(*old(db)),
    ensures
        db_wf(*final(db)),
        db_grows(*old(db), *final(db)),
        q ==> closed_upto(*final(db), 2),
{
    run_upto(db, 2, fuel)
}

/// Runs the path-alias seeding, propagation and sink stage to quiescence,
/// with all earlier stages' rules still active.
pub fn uaf_stage1(db: &mut Db, fuel: u64) -> (q: bool)
    requires
        db_wf(*old(db)),
    ensures
        db_wf(*final(db)),
        db_grows(*old(db), *final(db)),
        q ==> closed_upto(*final(db), 3),
{
    run_upto(db, 3, fuel)
}

/// Runs the empty-context return stage to quiescence, with all earlier
/// stages' rules still active.
pub fn uaf_stage2(db: &mut Db, fuel: u64) -> (q: bool)
    requires
        db_wf(*old(db)),
    ensures
        db_wf(*final(db)),
        db_grows(*old(db), *final(db)),
        q ==> closed_upto(*final(db), 4),
{
    run_upto(db, 4, fuel)
}

/// Runs the trace seeding and propagation stage to quiescence, with all
/// earlier stages' rules still active.
pub fn uaf_trace_stage1(db: &mut Db, fuel: u64) -> (q: bool)
    requires
        db_wf(*old(db)),
    ensures
        db_wf(*final(db)),
        db_grows(*old(db), *final(db)),
        q ==> closed_upto(*final(db), 5),
{
    run_upto(db, 5, fuel)
}

/// Runs the trace empty-context return stage to quiescence, with all
/// earlier stages' rules still active.
pub fn uaf_trace_stage2(db: &mut Db, fuel: u64) -> (q: bool)
    requires
        db_wf(*old(db)),
    ensures
        db_wf(*final(db)),
        db_grows(*old(db), *final(db)),
        q ==> closed_upto(*final(db), 6),
{
    run_upto(db, 6, fuel)
}

/// Runs the finding stage to quiescence, with every other stage's rules
/// still active: a quiescent store is closed under the whole rule set.
pub fn grading(db: &mut Db, fuel: u64) -> (q: bool)
    requires
        db_wf(*old(db)),
    ensures
        db_wf(*final(db)),
        db_grows(*old(db), *final(db)),
        q ==> closed_upto(*final(db), 7),
{
    run_upto(db, 7, fuel)
}

/// The staged driver: runs each stage to quiescence in dependency order,
/// each later stage keeping the earlier stages' rules active, so that
/// facts a later stage adds are still propagated by earlier rules. True
/// means every stage quiesced: the store is then closed under every rule,
/// and re-running any stage derives nothing new. False means the fuel
/// budget expired: the facts so far are a sound lower bound.
pub fn uaf(db: &mut Db, fuel: u64) -> (q: bool)
    requires
        db_wf(*old(db)),
    ensures
        db_wf(*final(db)),
        db_grows(*old(db), *final(db)),
        q ==> closed_upto(*final(db), 7),
{
    let ghost g0 = *db;
    let q1 = basic_setup(db, fuel);
    let ghost g1 = *db;
    let q2 = setup_stage2(db, fuel);
    proof {
        lemma_db_grows_trans(g0, g1, *db);
    }
    let ghost g2 = *db;
    let q3 = uaf_stage1(db, fuel);
    proof {
        lemma_db_grows_trans(g0, g2, *db);
    }
    let ghost g3 = *db;
    let q4 = uaf_stage2(db, fuel);
    proof {
        lemma_db_grows_trans(g0, g3, *db);
    }
    let ghost g4 = *db;
    let q5 = uaf_trace_stage1(db, fuel);
    proof {
        lemma_db_grows_trans(g0, g4, *db);
    }
    let ghost g5 = *db;
    let q6 = uaf_trace_stage2(db, fuel);
    proof {
        lemma_db_grows_trans(g0, g5, *db);
    }
    let ghost g6 = *db;
    let q7 = grading(db, fuel);
    proof {
        lemma_db_grows_trans(g0, g6, *db);
    }
    q1 && q2 && q3 && q4 && q5 && q6 && q7
}

} // verus!
