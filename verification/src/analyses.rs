//! Per-instruction analyses: control-transfer resolution, taint transfer,
//! the dereference test, heap-alias discovery and straight-line constant
//! propagation. All of them are pure functions of one instruction's
//! statement list and a tracked location or constant environment.

use vstd::prelude::*;
use crate::sema::{Sema, Stmt, Expr, BinOp, CastKind, Word};
use crate::var::{Variable, VarKind, HVar};
use crate::ubvs::UpperBVSet;

verus! {

broadcast use vstd::seq::group_seq_axioms, vstd::std_specs::vec::axiom_vec_decreases_to_view;

/// The targets and fallthrough of a statement list, evaluated left to
/// right: an unconditional jump to a constant yields that target and stops
/// fallthrough; a jump to anything else resolves nothing; a conditional
/// block yields the union of its branches and falls through iff some branch
/// does; anything else falls through.
pub open spec fn stmt_succ_spec(stmts: Seq<Stmt>) -> (Seq<u64>, bool)
    decreases stmts,
{
    if stmts.len() == 0 {
        (Seq::empty(), true)
    } else {
        match stmts[0] {
            Stmt::Jump(e) => match e {
                Expr::Const(w) => (seq![w.val], false),
                _ => (Seq::empty(), false),
            },
            Stmt::While { cond: _, body } => {
                let (tgts, fall) = stmt_succ_spec(body@);
                if fall {
                    let (tgts2, fall2) = stmt_succ_spec(stmts.drop_first());
                    (tgts + tgts2, fall2)
                } else {
                    (tgts, fall)
                }
            },
            Stmt::IfThenElse { cond: _, then_clause, else_clause } => {
                let (then_tgts, then_fall) = stmt_succ_spec(then_clause@);
                let (else_tgts, else_fall) = stmt_succ_spec(else_clause@);
                let fall = then_fall || else_fall;
                if fall {
                    let (tgts2, fall2) = stmt_succ_spec(stmts.drop_first());
                    (then_tgts + else_tgts + tgts2, fall2)
                } else {
                    (then_tgts + else_tgts, fall)
                }
            },
            _ => stmt_succ_spec(stmts.drop_first()),
        }
    }
}

/// Resolves the control-transfer targets of a statement list.
/// Returns the constant jump targets found and whether execution can fall
/// through to the next instruction.
pub fn stmt_succ(stmts: &[Stmt]) -> (r: (Vec<u64>, bool))
    ensures
        (r.0@, r.1) == stmt_succ_spec(stmts@),
    decreases stmts@,
{
    if stmts.len() == 0 {
        return (Vec::new(), true);
    }
    let rest = vstd::slice::slice_subrange(stmts, 1, stmts.len());
    match &stmts[0] {
        Stmt::Jump(e) => {
            match e {
                Expr::Const(w) => {
                    let mut v: Vec<u64> = Vec::new();
                    v.push(w.val);
                    assert(v@ =~= stmt_succ_spec(stmts@).0);
                    (v, false)
                },
                _ => {
                    assert(Seq::<u64>::empty() =~= stmt_succ_spec(stmts@).0);
                    (Vec::new(), false)
                },
            }
        },
        Stmt::While { cond: _, body } => {
            let (mut tgts, fall) = stmt_succ(body.as_slice());
            if fall {
                let (mut tgts2, fall2) = stmt_succ(rest);
                tgts.append(&mut tgts2);
                assert(tgts@ =~= stmt_succ_spec(stmts@).0);
                (tgts, fall2)
            } else {
                (tgts, fall)
            }
        },
        Stmt::IfThenElse { cond: _, then_clause, else_clause } => {
            let (mut then_tgts, then_fall) = stmt_succ(then_clause.as_slice());
            let (mut else_tgts, else_fall) = stmt_succ(else_clause.as_slice());
            let fall = then_fall || else_fall;
            then_tgts.append(&mut else_tgts);
            if fall {
                let (mut tgts2, fall2) = stmt_succ(rest);
                then_tgts.append(&mut tgts2);
                assert(then_tgts@ =~= stmt_succ_spec(stmts@).0);
                (then_tgts, fall2)
            } else {
                assert(then_tgts@ =~= stmt_succ_spec(stmts@).0);
                (then_tgts, false)
            }
        },
        _ => stmt_succ(rest),
    }
}

/// The successor set of an instruction: its resolved targets, plus its
/// fallthrough address when the statement list can fall through.
pub open spec fn successors_spec(sema: Sema, fall_addr: u64) -> Seq<u64> {
    let (tgts, fall) = stmt_succ_spec(sema.stmts@);
    if fall {
        tgts.push(fall_addr)
    } else {
        tgts
    }
}

/// Resolves the successor addresses of one instruction.
pub fn successors(sema: &Sema, fall_addr: u64) -> (r: Vec<u64>)
    ensures
        r@ == successors_spec(*sema, fall_addr),
{
    let (mut targets, fall) = stmt_succ(sema.stmts.as_slice());
    if fall {
        targets.push(fall_addr);
    }
    targets
}

/// The successor set as an upper set: an instruction that resolves no
/// successor at all is treated as able to jump anywhere.
pub fn succ_wrap_upper(sema: &Sema, fall_addr: u64) -> (r: UpperBVSet)
    ensures
        successors_spec(*sema, fall_addr).len() == 0 ==> r == UpperBVSet::Top,
        successors_spec(*sema, fall_addr).len() > 0 ==> match r {
            UpperBVSet::BVSet(bvs) => bvs@ == successors_spec(*sema, fall_addr),
            UpperBVSet::Top => false,
        },
{
    let bvs = successors(sema, fall_addr);
    if bvs.len() == 0 {
        UpperBVSet::Top
    } else {
        UpperBVSet::BVSet(bvs)
    }
}

/// Whether some statement is a jump whose target is not a constant: such
/// an instruction has a control transfer the resolver cannot enumerate.
pub open spec fn jump_unresolved(s: Stmt) -> bool {
    s matches Stmt::Jump(e) && !(e is Const)
}

pub open spec fn computed_jump_spec(stmts: Seq<Stmt>) -> bool {
    exists|i: int| 0 <= i < stmts.len() && jump_unresolved(#[trigger] stmts[i])
}

/// Detects a jump to a non-constant expression at the top level of an
/// instruction's statement list.
pub fn is_computed_jump(sema: &Sema) -> (r: bool)
    ensures
        r == computed_jump_spec(sema.stmts@),
{
    let n = sema.stmts.len();
    for i in 0..n
        invariant
            n == sema.stmts.len(),
            forall|j: int| 0 <= j < i ==> !jump_unresolved(#[trigger] sema.stmts@[j]),
    {
        match &sema.stmts[i] {
            Stmt::Jump(e) => {
                match e {
                    Expr::Const(_) => {},
                    _ => {
                        assert(jump_unresolved(sema.stmts@[i as int]));
                        return true;
                    },
                }
            },
            _ => {},
        }
    }
    false
}

/// An instruction whose only statement is an unconditional jump to a
/// constant yields exactly that target and cannot fall through.
pub proof fn lemma_succ_jump_const(sema: Sema, w: crate::sema::Word, fall_addr: u64)
    requires
        sema.stmts@ =~= seq![Stmt::Jump(Expr::Const(w))],
    ensures
        successors_spec(sema, fall_addr) =~= seq![w.val],
{
    assert(stmt_succ_spec(sema.stmts@).0 =~= seq![w.val]);
}

/// No control-transfer statement at any nesting depth: no jump, and the
/// bodies of every conditional block are transfer-free too.
pub open spec fn no_transfer(stmts: Seq<Stmt>) -> bool
    decreases stmts,
{
    if stmts.len() == 0 {
        true
    } else {
        (match stmts[0] {
            Stmt::Jump(_) => false,
            Stmt::While { cond: _, body } => no_transfer(body@),
            Stmt::IfThenElse { cond: _, then_clause, else_clause } => no_transfer(then_clause@)
                && no_transfer(else_clause@),
            _ => true,
        }) && no_transfer(stmts.drop_first())
    }
}

/// A statement list free of control transfers resolves no target and
/// falls through.
pub proof fn lemma_stmt_succ_no_transfer(stmts: Seq<Stmt>)
    requires
        no_transfer(stmts),
    ensures
        stmt_succ_spec(stmts) == (Seq::<u64>::empty(), true),
    decreases stmts,
{
    if stmts.len() > 0 {
        lemma_stmt_succ_no_transfer(stmts.drop_first());
        match stmts[0] {
            Stmt::While { cond: _, body } => {
                lemma_stmt_succ_no_transfer(body@);
                assert(Seq::<u64>::empty() + Seq::<u64>::empty() =~= Seq::<u64>::empty());
            },
            Stmt::IfThenElse { cond: _, then_clause, else_clause } => {
                lemma_stmt_succ_no_transfer(then_clause@);
                lemma_stmt_succ_no_transfer(else_clause@);
                assert(Seq::<u64>::empty() + Seq::<u64>::empty() + Seq::<u64>::empty()
                    =~= Seq::<u64>::empty());
            },
            _ => {},
        }
    }
}

/// An instruction with no control-transfer statement, at any nesting
/// depth, yields exactly its fallthrough address and nothing else.
pub proof fn lemma_succ_fallthrough(sema: Sema, fall_addr: u64)
    requires
        no_transfer(sema.stmts@),
    ensures
        successors_spec(sema, fall_addr) =~= seq![fall_addr],
{
    lemma_stmt_succ_no_transfer(sema.stmts@);
}

// ---------------------------------------------------------------------------
// Taint transfer
// ---------------------------------------------------------------------------

/// A register-like variable: an immediate of any width.
pub open spec fn is_reg_spec(v: Variable) -> bool {
    v.kind matches VarKind::Immediate(_)
}

/// Executable form of `is_reg_spec`.
pub fn is_reg(v: &Variable) -> (r: bool)
    ensures
        r == is_reg_spec(*v),
{
    match v.kind {
        VarKind::Immediate(_) => true,
        VarKind::Memory => false,
    }
}

/// A memory variable.
pub open spec fn is_mem_spec(v: Variable) -> bool {
    v.kind matches VarKind::Memory
}

/// Executable form of `is_mem_spec`.
pub fn is_mem(v: &Variable) -> (r: bool)
    ensures
        r == is_mem_spec(*v),
{
    match v.kind {
        VarKind::Memory => true,
        VarKind::Immediate(_) => false,
    }
}

/// Promotes a memory index expression to a trackable location: a bare
/// variable is the cell at offset zero, `variable + constant` (either
/// order) is the cell at that constant offset, and every other shape is
/// not trackable.
pub open spec fn promote_idx_spec(idx: Expr) -> Option<HVar>
{
    match idx {
        Expr::Var(v) => Some(HVar { inner: v, offset: Some(0) }),
        Expr::BinOp { op: BinOp::Add, lhs, rhs } => match (*lhs, *rhs) {
            (Expr::Var(v), Expr::Const(w)) => Some(HVar { inner: v, offset: Some(w.val) }),
            (Expr::Const(w), Expr::Var(v)) => Some(HVar { inner: v, offset: Some(w.val) }),
            _ => None,
        },
        _ => None,
    }
}

/// Executable form of `promote_idx_spec`.
pub fn promote_idx(idx: &Expr) -> (r: Option<HVar>)
    ensures
        r == promote_idx_spec(*idx),
{
    match idx {
        Expr::Var(v) => Some(HVar { inner: *v, offset: Some(0) }),
        Expr::BinOp { op: BinOp::Add, lhs, rhs } => {
            match (&**lhs, &**rhs) {
                (Expr::Var(v), Expr::Const(w)) => Some(HVar { inner: *v, offset: Some(w.val) }),
                (Expr::Const(w), Expr::Var(v)) => Some(HVar { inner: *v, offset: Some(w.val) }),
                _ => None,
            }
        },
        _ => None,
    }
}

/// Whether an expression reads a tracked location: a bare variable read of
/// a tracked register, or a load whose promoted index is tracked.
pub open spec fn hv_match_spec(bad: Seq<HVar>, e: Expr) -> bool {
    match e {
        Expr::Var(v) => bad.contains(HVar { inner: v, offset: None }),
        Expr::Load { index } => match promote_idx_spec(*index) {
            Some(hv) => bad.contains(hv),
            None => false,
        },
        _ => false,
    }
}

/// Executable form of `hv_match_spec`.
pub fn hv_match(bad: &Vec<HVar>, e: &Expr) -> (r: bool)
    ensures
        r == hv_match_spec(bad@, *e),
{
    match e {
        Expr::Var(v) => contains_hvar(bad, &HVar { inner: *v, offset: None }),
        Expr::Load { index } => {
            match promote_idx(index) {
                Some(hv) => contains_hvar(bad, &hv),
                None => false,
            }
        },
        _ => false,
    }
}

/// Linear membership scan over a vector of locations.
pub fn contains_hvar(v: &Vec<HVar>, x: &HVar) -> (r: bool)
    ensures
        r == v@.contains(*x),
{
    let n = v.len();
    for i in 0..n
        invariant
            n == v.len(),
            forall|j: int| 0 <= j < i ==> v@[j] != *x,
    {
        if v[i] == *x {
            assert(v@[i as int] == *x);
            return true;
        }
    }
    assert(forall|j: int| 0 <= j < v@.len() ==> v@[j] != *x);
    false
}

/// Adds a location to the tracked set unless it is already there.
pub open spec fn add_hvar_spec(bad: Seq<HVar>, hv: HVar) -> Seq<HVar> {
    if bad.contains(hv) {
        bad
    } else {
        bad.push(hv)
    }
}

/// Executable form of `add_hvar_spec`.
pub fn add_hvar(bad: Vec<HVar>, hv: HVar) -> (r: Vec<HVar>)
    ensures
        r@ == add_hvar_spec(bad@, hv),
{
    let mut bad = bad;
    if !contains_hvar(&bad, &hv) {
        bad.push(hv);
    }
    bad
}

/// Removes every occurrence of a location from the tracked set, keeping
/// the order of the rest.
pub open spec fn rem_hvar_spec(bad: Seq<HVar>, hv: HVar) -> Seq<HVar> {
    bad.filter(|x: HVar| x != hv)
}

/// Executable form of `rem_hvar_spec`.
pub fn rem_hvar(bad: Vec<HVar>, hv: HVar) -> (r: Vec<HVar>)
    ensures
        r@ == rem_hvar_spec(bad@, hv),
{
    let n = bad.len();
    let mut out: Vec<HVar> = Vec::new();
    assert(out@ =~= rem_hvar_spec(bad@.take(0), hv)) by {
        reveal_with_fuel(Seq::filter, 2);
        assert(bad@.take(0) =~= Seq::<HVar>::empty());
    }
    for i in 0..n
        invariant
            n == bad.len(),
            out@ =~= rem_hvar_spec(bad@.take(i as int), hv),
    {
        proof {
            reveal_with_fuel(Seq::filter, 2);
            assert(bad@.take(i + 1).drop_last() =~= bad@.take(i as int));
            assert(bad@.take(i + 1).last() == bad@[i as int]);
        }
        if !(bad[i] == hv) {
            out.push(bad[i]);
        }
    }
    proof {
        assert(bad@.take(n as int) =~= bad@);
    }
    out
}

/// The tracked-set transfer of one statement. A move into a register adds
/// the register when the right-hand side reads a tracked location and
/// removes it otherwise; a store through a promotable index does the same
/// for that cell, keyed to the stored value's taint; every other statement
/// leaves the set unchanged.
pub open spec fn proc_stmt_spec(bad: Seq<HVar>, stmt: Stmt) -> Seq<HVar> {
    match stmt {
        Stmt::Move { lhs, rhs } => {
            if is_reg_spec(lhs) {
                if hv_match_spec(bad, rhs) {
                    add_hvar_spec(bad, HVar { inner: lhs, offset: None })
                } else {
                    rem_hvar_spec(bad, HVar { inner: lhs, offset: None })
                }
            } else {
                match rhs {
                    Expr::Store { index, value } => {
                        if hv_match_spec(bad, *value) {
                            match promote_idx_spec(*index) {
                                Some(hidx) => add_hvar_spec(bad, hidx),
                                None => bad,
                            }
                        } else {
                            match promote_idx_spec(*index) {
                                Some(hidx) => rem_hvar_spec(bad, hidx),
                                None => bad,
                            }
                        }
                    },
                    _ => bad,
                }
            }
        },
        _ => bad,
    }
}

/// Executable form of `proc_stmt_spec`.
pub fn proc_stmt(bad: Vec<HVar>, stmt: &Stmt) -> (r: Vec<HVar>)
    ensures
        r@ == proc_stmt_spec(bad@, *stmt),
{
    match stmt {
        Stmt::Move { lhs, rhs } => {
            if is_reg(lhs) {
                if hv_match(&bad, rhs) {
                    add_hvar(bad, HVar { inner: *lhs, offset: None })
                } else {
                    rem_hvar(bad, HVar { inner: *lhs, offset: None })
                }
            } else {
                match rhs {
                    Expr::Store { index, value } => {
                        if hv_match(&bad, value) {
                            match promote_idx(index) {
                                Some(hidx) => add_hvar(bad, hidx),
                                None => bad,
                            }
                        } else {
                            match promote_idx(index) {
                                Some(hidx) => rem_hvar(bad, hidx),
                                None => bad,
                            }
                        }
                    },
                    _ => bad,
                }
            }
        },
        _ => bad,
    }
}

/// Folds `proc_stmt_spec` over a statement list, left to right.
pub open spec fn fold_stmts_spec(bad: Seq<HVar>, stmts: Seq<Stmt>) -> Seq<HVar>
    decreases stmts.len(),
{
    if stmts.len() == 0 {
        bad
    } else {
        fold_stmts_spec(proc_stmt_spec(bad, stmts[0]), stmts.drop_first())
    }
}

/// Restriction of a tracked set to the locations that can persist
/// (neither temporaries nor flags).
pub open spec fn filter_trackable_spec(s: Seq<HVar>) -> Seq<HVar> {
    s.filter(|v: HVar| crate::var::trackable(v))
}

/// The taint transfer of a whole instruction on a single tracked location:
/// the tracked set after every statement, restricted to locations that can
/// persist (neither temporaries nor flags).
pub open spec fn xfer_taint_spec(sema: Sema, var: HVar) -> Seq<HVar> {
    filter_trackable_spec(fold_stmts_spec(seq![var], sema.stmts@))
}

/// Applies one instruction's transfer function to a tracked location.
pub fn xfer_taint(sema: &Sema, var: &HVar) -> (r: Vec<HVar>)
    ensures
        r@ == xfer_taint_spec(*sema, *var),
{
    let mut bad: Vec<HVar> = Vec::new();
    bad.push(*var);
    let ghost init = bad@;
    let n = sema.stmts.len();
    for i in 0..n
        invariant
            n == sema.stmts.len(),
            bad@ == fold_stmts_spec(init, sema.stmts@.take(i as int)),
            init =~= seq![*var],
    {
        proof {
            lemma_fold_stmts_take_step(init, sema.stmts@, i as int);
        }
        bad = proc_stmt(bad, &sema.stmts[i]);
    }
    proof {
        assert(sema.stmts@.take(n as int) =~= sema.stmts@);
    }
    filter_trackable(bad)
}

/// `fold` over `take(i + 1)` is one `proc_stmt_spec` step past `take(i)`.
proof fn lemma_fold_stmts_take_step(init: Seq<HVar>, stmts: Seq<Stmt>, i: int)
    requires
        0 <= i < stmts.len(),
    ensures
        fold_stmts_spec(init, stmts.take(i + 1)) == proc_stmt_spec(
            fold_stmts_spec(init, stmts.take(i)),
            stmts[i],
        ),
    decreases i,
{
    reveal_with_fuel(fold_stmts_spec, 3);
    if i == 0 {
        assert(stmts.take(1).drop_first() =~= Seq::<Stmt>::empty());
        assert(stmts.take(0) =~= Seq::<Stmt>::empty());
        assert(stmts.take(1)[0] == stmts[0]);
    } else {
        lemma_fold_stmts_take_step(proc_stmt_spec(init, stmts[0]), stmts.drop_first(), i - 1);
        assert(stmts.take(i + 1).drop_first() =~= stmts.drop_first().take(i));
        assert(stmts.take(i).drop_first() =~= stmts.drop_first().take(i - 1));
        assert(stmts.take(i + 1)[0] == stmts[0]);
        assert(stmts.take(i)[0] == stmts[0]);
        assert(stmts.drop_first()[i - 1] == stmts[i]);
    }
}

/// Keeps the locations that can persist across instructions.
pub fn filter_trackable(v: Vec<HVar>) -> (r: Vec<HVar>)
    ensures
        r@ == filter_trackable_spec(v@),
{
    let n = v.len();
    let mut out: Vec<HVar> = Vec::new();
    assert(out@ =~= filter_trackable_spec(v@.take(0))) by {
        reveal_with_fuel(Seq::filter, 2);
        assert(v@.take(0) =~= Seq::<HVar>::empty());
    }
    for i in 0..n
        invariant
            n == v.len(),
            out@ =~= filter_trackable_spec(v@.take(i as int)),
    {
        proof {
            reveal_with_fuel(Seq::filter, 2);
            assert(v@.take(i + 1).drop_last() =~= v@.take(i as int));
            assert(v@.take(i + 1).last() == v@[i as int]);
        }
        if crate::var::is_trackable(&v[i]) {
            out.push(v[i]);
        }
    }
    proof {
        assert(v@.take(n as int) =~= v@);
    }
    out
}

// ---------------------------------------------------------------------------
// The dereference test
// ---------------------------------------------------------------------------

/// Whether an index expression is exactly the tracked variable: a bare
/// variable matches only a register-tracked location (no offset), and a
/// sum matches when either operand does. Offset-carrying locations never
/// match: the test is offset-exact.
pub open spec fn check_idx_spec(idx: Expr, var: HVar) -> bool
    decreases idx,
{
    match idx {
        Expr::Var(v) => var.offset is None && var.inner == v,
        Expr::BinOp { op: _, lhs, rhs } => check_idx_spec(*lhs, var) || check_idx_spec(*rhs, var),
        _ => false,
    }
}

/// Executable form of `check_idx_spec`.
pub fn check_idx(idx: &Expr, var: &HVar) -> (r: bool)
    ensures
        r == check_idx_spec(*idx, *var),
    decreases *idx,
{
    match idx {
        Expr::Var(v) => var.offset.is_none() && var.inner == *v,
        Expr::BinOp { op: _, lhs, rhs } => check_idx(lhs, var) || check_idx(rhs, var),
        _ => false,
    }
}

/// Whether an expression genuinely dereferences the tracked variable: a
/// load or store whose index matches it exactly, possibly under a cast.
pub open spec fn deref_var_expr_spec(expr: Expr, var: HVar) -> bool
    decreases expr,
{
    match expr {
        Expr::Load { index } => check_idx_spec(*index, var),
        Expr::Store { index, value: _ } => check_idx_spec(*index, var),
        Expr::Cast { kind: _, width: _, arg } => deref_var_expr_spec(*arg, var),
        _ => false,
    }
}

/// Executable form of `deref_var_expr_spec`.
pub fn deref_var_expr(expr: &Expr, var: &HVar) -> (r: bool)
    ensures
        r == deref_var_expr_spec(*expr, *var),
    decreases *expr,
{
    match expr {
        Expr::Load { index } => check_idx(index, var),
        Expr::Store { index, value: _ } => check_idx(index, var),
        Expr::Cast { kind: _, width: _, arg } => deref_var_expr(arg, var),
        _ => false,
    }
}

/// Whether one statement dereferences the tracked variable: only the
/// right-hand side of a move can.
pub open spec fn deref_var_step_spec(stmt: Stmt, var: HVar) -> bool {
    match stmt {
        Stmt::Move { lhs: _, rhs } => deref_var_expr_spec(rhs, var),
        _ => false,
    }
}

/// Executable form of `deref_var_step_spec`.
pub fn deref_var_step(stmt: &Stmt, var: &HVar) -> (r: bool)
    ensures
        r == deref_var_step_spec(*stmt, *var),
{
    match stmt {
        Stmt::Move { lhs: _, rhs } => deref_var_expr(rhs, var),
        _ => false,
    }
}

/// Walks the statement list carrying the evolving tracked set; true iff
/// some statement dereferences some location tracked at that point.
pub open spec fn deref_var_loop_spec(stmts: Seq<Stmt>, vars: Seq<HVar>) -> bool
    decreases stmts.len(),
{
    if stmts.len() == 0 {
        false
    } else {
        (exists|k: int| 0 <= k < vars.len() && deref_var_step_spec(stmts[0], #[trigger] vars[k]))
            || deref_var_loop_spec(stmts.drop_first(), proc_stmt_spec(vars, stmts[0]))
    }
}

/// Whether an instruction genuinely dereferences the tracked location or
/// anything it flows into within the instruction.
pub open spec fn deref_var_sema_spec(sema: Sema, var: HVar) -> bool {
    deref_var_loop_spec(sema.stmts@, seq![var])
}

/// The dereference test: true iff the instruction loads or stores through
/// the tracked location (offset-exact), following the location through the
/// instruction's own moves.
pub fn deref_var(sema: &Sema, var: &HVar) -> (r: bool)
    ensures
        r == deref_var_sema_spec(*sema, *var),
{
    let mut vars: Vec<HVar> = Vec::new();
    vars.push(*var);
    let ghost whole = deref_var_loop_spec(sema.stmts@, vars@);
    proof {
        assert(sema.stmts@.skip(0) =~= sema.stmts@);
    }
    let n = sema.stmts.len();
    for i in 0..n
        invariant
            n == sema.stmts.len(),
            whole == deref_var_sema_spec(*sema, *var),
            deref_var_loop_spec(sema.stmts@.skip(i as int), vars@) == whole,
    {
        proof {
            assert(sema.stmts@.skip(i as int)[0] == sema.stmts@[i as int]);
            assert(sema.stmts@.skip(i as int).drop_first() =~= sema.stmts@.skip(i + 1));
        }
        let m = vars.len();
        for k in 0..m
            invariant
                m == vars.len(),
                n == sema.stmts.len(),
                i < n,
                whole == deref_var_sema_spec(*sema, *var),
                deref_var_loop_spec(sema.stmts@.skip(i as int), vars@) == whole,
                forall|k2: int| 0 <= k2 < k ==> !deref_var_step_spec(sema.stmts@[i as int], #[trigger] vars@[k2]),
        {
            if deref_var_step(&sema.stmts[i], &vars[k]) {
                proof {
                    assert(deref_var_step_spec(sema.stmts@.skip(i as int)[0], vars@[k as int]));
                }
                return true;
            }
        }
        vars = proc_stmt(vars, &sema.stmts[i]);
    }
    proof {
        assert(sema.stmts@.skip(n as int) =~= Seq::<Stmt>::empty());
    }
    false
}

/// Offset exactness: a location tracked at a non-`None` offset never
/// matches a bare-variable index, whatever the index expression is.
pub proof fn lemma_check_idx_offset_exact(idx: Expr, var: HVar)
    requires
        var.offset is Some,
    ensures
        !check_idx_spec(idx, var),
    decreases idx,
{
    match idx {
        Expr::BinOp { op: _, lhs, rhs } => {
            lemma_check_idx_offset_exact(*lhs, var);
            lemma_check_idx_offset_exact(*rhs, var);
        },
        _ => {},
    }
}

/// Offset exactness lifted to whole expressions: no load or store in any
/// expression dereferences a location tracked at an offset.
pub proof fn lemma_deref_expr_offset_exact(expr: Expr, var: HVar)
    requires
        var.offset is Some,
    ensures
        !deref_var_expr_spec(expr, var),
    decreases expr,
{
    match expr {
        Expr::Load { index } => lemma_check_idx_offset_exact(*index, var),
        Expr::Store { index, value: _ } => lemma_check_idx_offset_exact(*index, var),
        Expr::Cast { kind: _, width: _, arg } => lemma_deref_expr_offset_exact(*arg, var),
        _ => {},
    }
}

// ---------------------------------------------------------------------------
// Stack-pointer escape
// ---------------------------------------------------------------------------

/// Whether one statement writes a tracked value through an index that
/// cannot be promoted to a trackable location: the value escapes the
/// tracked abstraction.
pub open spec fn escape_step_spec(bad: Seq<HVar>, stmt: Stmt) -> bool {
    match stmt {
        Stmt::Move { lhs, rhs } => !is_reg_spec(lhs) && match rhs {
            Expr::Store { index, value } => hv_match_spec(bad, *value) && promote_idx_spec(
                *index,
            ) is None,
            _ => false,
        },
        _ => false,
    }
}

/// Walks the statement list carrying the evolving tracked set; true iff
/// some statement lets a tracked value escape.
pub open spec fn escape_loop_spec(stmts: Seq<Stmt>, vars: Seq<HVar>) -> bool
    decreases stmts.len(),
{
    if stmts.len() == 0 {
        false
    } else {
        escape_step_spec(vars, stmts[0]) || escape_loop_spec(
            stmts.drop_first(),
            proc_stmt_spec(vars, stmts[0]),
        )
    }
}

/// The escape test used by the stack-address escape check: true iff the
/// instruction stores the tracked value through an unpromotable index.
pub fn stack_escape(var: &HVar, sema: &Sema) -> (r: bool)
    ensures
        r == escape_loop_spec(sema.stmts@, seq![*var]),
{
    let mut vars: Vec<HVar> = Vec::new();
    vars.push(*var);
    let ghost whole = escape_loop_spec(sema.stmts@, vars@);
    proof {
        assert(sema.stmts@.skip(0) =~= sema.stmts@);
    }
    let n = sema.stmts.len();
    for i in 0..n
        invariant
            n == sema.stmts.len(),
            whole == escape_loop_spec(sema.stmts@, seq![*var]),
            escape_loop_spec(sema.stmts@.skip(i as int), vars@) == whole,
    {
        proof {
            assert(sema.stmts@.skip(i as int)[0] == sema.stmts@[i as int]);
            assert(sema.stmts@.skip(i as int).drop_first() =~= sema.stmts@.skip(i + 1));
        }
        let escaped = match &sema.stmts[i] {
            Stmt::Move { lhs, rhs } => {
                if !is_reg(lhs) {
                    match rhs {
                        Expr::Store { index, value } => {
                            hv_match(&vars, value) && promote_idx(index).is_none()
                        },
                        _ => false,
                    }
                } else {
                    false
                }
            },
            _ => false,
        };
        if escaped {
            return true;
        }
        vars = proc_stmt(vars, &sema.stmts[i]);
    }
    proof {
        assert(sema.stmts@.skip(n as int) =~= Seq::<Stmt>::empty());
    }
    false
}

/// Dereference exactness for one-statement instructions: a location
/// tracked at offset `Some(k)` is not reported as dereferenced, even when
/// the same base variable is dereferenced at offset zero by that statement.
pub proof fn lemma_deref_var_offset_exact(sema: Sema, var: HVar)
    requires
        var.offset is Some,
        sema.stmts@.len() <= 1,
    ensures
        !deref_var_sema_spec(sema, var),
{
    if sema.stmts@.len() == 1 {
        let vars = seq![var];
        assert forall|k: int| 0 <= k < vars.len() implies !deref_var_step_spec(
            sema.stmts@[0],
            #[trigger] vars[k],
        ) by {
            match sema.stmts@[0] {
                Stmt::Move { lhs: _, rhs } => lemma_deref_expr_offset_exact(rhs, var),
                _ => {},
            }
        }
        assert(sema.stmts@.drop_first() =~= Seq::<Stmt>::empty());
        assert(!deref_var_loop_spec(
            sema.stmts@.drop_first(),
            proc_stmt_spec(vars, sema.stmts@[0]),
        ));
    }
}

// ---------------------------------------------------------------------------
// Straight-line constant propagation
// ---------------------------------------------------------------------------

/// The all-ones mask of a word width; widths are capped at the machine
/// word.
pub open spec fn mask_of(width: u16) -> u64 {
    if width >= 64 {
        u64::MAX
    } else {
        ((1u64 << (width as u64)) - 1) as u64
    }
}

/// Modular addition at a shared width; words of different widths do not
/// combine.
pub open spec fn word_add_spec(l: Word, r: Word) -> Option<Word> {
    if l.width == r.width && l.width <= 64 {
        Some(Word { val: vstd::wrapping::u64_specs::wrapping_add(l.val, r.val) & mask_of(l.width), width: l.width })
    } else {
        None
    }
}

/// The interpreted fragment of the binary operators: only addition is
/// computed.
pub open spec fn compute_op_spec(op: BinOp, l: Word, r: Word) -> Option<Word> {
    match op {
        BinOp::Add => word_add_spec(l, r),
        BinOp::Other => None,
    }
}

/// Executable form of `mask_of`.
pub fn mask_exec(width: u16) -> (r: u64)
    ensures
        r == mask_of(width),
{
    if width >= 64 {
        u64::MAX
    } else {
        let w = width as u64;
        let sh = 1u64 << w;
        assert(1u64 << w >= 1) by (bit_vector)
            requires
                w < 64,
        ;
        sh - 1
    }
}

/// Executable form of `compute_op_spec`.
pub fn compute_op(op: BinOp, l: Word, r: Word) -> (res: Option<Word>)
    ensures
        res == compute_op_spec(op, l, r),
{
    match op {
        BinOp::Add => {
            if l.width == r.width && l.width <= 64 {
                let mask = mask_exec(l.width);
                Some(Word { val: l.val.wrapping_add(r.val) & mask, width: l.width })
            } else {
                None
            }
        },
        BinOp::Other => None,
    }
}

/// The interpreted fragment of the casts: truncation and zero extension
/// both keep the value modulo the new width.
pub open spec fn compute_cast_spec(kind: CastKind, bs: u16, v: Word) -> Option<Word> {
    match kind {
        CastKind::Low => if bs <= 64 {
            Some(Word { val: v.val & mask_of(bs), width: bs })
        } else {
            None
        },
        CastKind::Unsigned => if bs <= 64 {
            Some(Word { val: v.val & mask_of(bs), width: bs })
        } else {
            None
        },
        CastKind::Other => None,
    }
}

/// Executable form of `compute_cast_spec`.
pub fn compute_cast(kind: CastKind, bs: u16, v: Word) -> (res: Option<Word>)
    ensures
        res == compute_cast_spec(kind, bs, v),
{
    match kind {
        CastKind::Other => None,
        _ => {
            if bs <= 64 {
                let mask = mask_exec(bs);
                Some(Word { val: v.val & mask, width: bs })
            } else {
                None
            }
        },
    }
}

/// Lookup in a constant environment held as an association list: the
/// earliest binding wins.
pub open spec fn env_get_spec(env: Seq<(HVar, Word)>, k: HVar) -> Option<Word>
    decreases env.len(),
{
    if env.len() == 0 {
        None
    } else if env[0].0 == k {
        Some(env[0].1)
    } else {
        env_get_spec(env.drop_first(), k)
    }
}

/// Executable form of `env_get_spec`.
pub fn env_get(env: &Vec<(HVar, Word)>, k: &HVar) -> (res: Option<Word>)
    ensures
        res == env_get_spec(env@, *k),
{
    let n = env.len();
    proof {
        assert(env@.skip(0) =~= env@);
    }
    for i in 0..n
        invariant
            n == env.len(),
            env_get_spec(env@.skip(i as int), *k) == env_get_spec(env@, *k),
    {
        proof {
            assert(env@.skip(i as int)[0] == env@[i as int]);
            assert(env@.skip(i as int).drop_first() =~= env@.skip(i + 1));
        }
        if env[i].0 == *k {
            return Some(env[i].1);
        }
    }
    proof {
        assert(env@.skip(n as int) =~= Seq::<(HVar, Word)>::empty());
    }
    None
}

/// Removing a binding drops every pair at that key.
pub open spec fn env_remove_spec(env: Seq<(HVar, Word)>, k: HVar) -> Seq<(HVar, Word)> {
    env.filter(|p: (HVar, Word)| p.0 != k)
}

/// Executable form of `env_remove_spec`.
pub fn env_remove(env: Vec<(HVar, Word)>, k: HVar) -> (res: Vec<(HVar, Word)>)
    ensures
        res@ == env_remove_spec(env@, k),
{
    let n = env.len();
    let mut out: Vec<(HVar, Word)> = Vec::new();
    assert(out@ =~= env_remove_spec(env@.take(0), k)) by {
        reveal_with_fuel(Seq::filter, 2);
        assert(env@.take(0) =~= Seq::<(HVar, Word)>::empty());
    }
    for i in 0..n
        invariant
            n == env.len(),
            out@ =~= env_remove_spec(env@.take(i as int), k),
    {
        proof {
            reveal_with_fuel(Seq::filter, 2);
            assert(env@.take(i + 1).drop_last() =~= env@.take(i as int));
            assert(env@.take(i + 1).last() == env@[i as int]);
        }
        if !(env[i].0 == k) {
            out.push(env[i]);
        }
    }
    proof {
        assert(env@.take(n as int) =~= env@);
    }
    out
}

/// Replacing a binding removes the old pairs at that key and appends the
/// new one.
pub open spec fn env_insert_spec(env: Seq<(HVar, Word)>, k: HVar, v: Word) -> Seq<(HVar, Word)> {
    env_remove_spec(env, k).push((k, v))
}

/// Executable form of `env_insert_spec`.
pub fn env_insert(env: Vec<(HVar, Word)>, k: HVar, v: Word) -> (res: Vec<(HVar, Word)>)
    ensures
        res@ == env_insert_spec(env@, k, v),
{
    let mut out = env_remove(env, k);
    out.push((k, v));
    out
}

/// Evaluates an expression under a constant environment: variables and
/// promotable loads read the environment, constants are themselves,
/// interpreted casts and additions combine, everything else is unknown.
pub open spec fn compute_expr_spec(e: Expr, env: Seq<(HVar, Word)>) -> Option<Word>
    decreases e,
{
    match e {
        Expr::Var(v) => env_get_spec(env, HVar { inner: v, offset: None }),
        Expr::Load { index } => match promote_idx_spec(*index) {
            Some(hv) => env_get_spec(env, hv),
            None => None,
        },
        Expr::Const(w) => Some(w),
        Expr::Cast { kind, width, arg } => match compute_expr_spec(*arg, env) {
            Some(w) => compute_cast_spec(kind, width, w),
            None => None,
        },
        Expr::BinOp { op, lhs, rhs } => match (compute_expr_spec(*lhs, env), compute_expr_spec(*rhs, env)) {
            (Some(l), Some(r)) => compute_op_spec(op, l, r),
            _ => None,
        },
        _ => None,
    }
}

/// Executable form of `compute_expr_spec`.
pub fn compute_expr(e: &Expr, env: &Vec<(HVar, Word)>) -> (res: Option<Word>)
    ensures
        res == compute_expr_spec(*e, env@),
    decreases *e,
{
    match e {
        Expr::Var(v) => env_get(env, &HVar { inner: *v, offset: None }),
        Expr::Load { index } => match promote_idx(index) {
            Some(hv) => env_get(env, &hv),
            None => None,
        },
        Expr::Const(w) => Some(*w),
        Expr::Cast { kind, width, arg } => match compute_expr(arg, env) {
            Some(w) => compute_cast(*kind, *width, w),
            None => None,
        },
        Expr::BinOp { op, lhs, rhs } => {
            let l = compute_expr(lhs, env);
            let r = compute_expr(rhs, env);
            match (l, r) {
                (Some(lv), Some(rv)) => compute_op(*op, lv, rv),
                _ => None,
            }
        },
        _ => None,
    }
}

/// The constant-environment transfer of one statement: a register move
/// binds or unbinds the register by whether its right-hand side evaluates;
/// a store through a promotable index does the same for that cell; no
/// jumps or branches are modelled.
pub open spec fn const_prop_h_spec(env: Seq<(HVar, Word)>, stmt: Stmt) -> Seq<(HVar, Word)> {
    match stmt {
        Stmt::Move { lhs, rhs } => {
            if is_reg_spec(lhs) {
                let k = HVar { inner: lhs, offset: None };
                match compute_expr_spec(rhs, env) {
                    Some(w) => env_insert_spec(env, k, w),
                    None => env_remove_spec(env, k),
                }
            } else {
                match rhs {
                    Expr::Store { index, value } => match promote_idx_spec(*index) {
                        Some(k) => match compute_expr_spec(*value, env) {
                            Some(w) => env_insert_spec(env, k, w),
                            None => env_remove_spec(env, k),
                        },
                        None => env,
                    },
                    _ => env,
                }
            }
        },
        _ => env,
    }
}

/// Executable form of `const_prop_h_spec`.
pub fn const_prop_h(env: Vec<(HVar, Word)>, stmt: &Stmt) -> (res: Vec<(HVar, Word)>)
    ensures
        res@ == const_prop_h_spec(env@, *stmt),
{
    match stmt {
        Stmt::Move { lhs, rhs } => {
            if is_reg(lhs) {
                let k = HVar { inner: *lhs, offset: None };
                match compute_expr(rhs, &env) {
                    Some(w) => env_insert(env, k, w),
                    None => env_remove(env, k),
                }
            } else {
                match rhs {
                    Expr::Store { index, value } => match promote_idx(index) {
                        Some(k) => match compute_expr(value, &env) {
                            Some(w) => env_insert(env, k, w),
                            None => env_remove(env, k),
                        },
                        None => env,
                    },
                    _ => env,
                }
            }
        },
        _ => env,
    }
}

/// Folds `const_prop_h_spec` over a statement list.
pub open spec fn fold_const_spec(env: Seq<(HVar, Word)>, stmts: Seq<Stmt>) -> Seq<(HVar, Word)>
    decreases stmts.len(),
{
    if stmts.len() == 0 {
        env
    } else {
        fold_const_spec(const_prop_h_spec(env, stmts[0]), stmts.drop_first())
    }
}

/// `fold_const_spec` over `take(i + 1)` is one step past `take(i)`.
proof fn lemma_fold_const_take_step(env: Seq<(HVar, Word)>, stmts: Seq<Stmt>, i: int)
    requires
        0 <= i < stmts.len(),
    ensures
        fold_const_spec(env, stmts.take(i + 1)) == const_prop_h_spec(
            fold_const_spec(env, stmts.take(i)),
            stmts[i],
        ),
    decreases i,
{
    reveal_with_fuel(fold_const_spec, 3);
    if i == 0 {
        assert(stmts.take(1).drop_first() =~= Seq::<Stmt>::empty());
        assert(stmts.take(0) =~= Seq::<Stmt>::empty());
        assert(stmts.take(1)[0] == stmts[0]);
    } else {
        lemma_fold_const_take_step(const_prop_h_spec(env, stmts[0]), stmts.drop_first(), i - 1);
        assert(stmts.take(i + 1).drop_first() =~= stmts.drop_first().take(i));
        assert(stmts.take(i).drop_first() =~= stmts.drop_first().take(i - 1));
        assert(stmts.take(i + 1)[0] == stmts[0]);
        assert(stmts.take(i)[0] == stmts[0]);
        assert(stmts.drop_first()[i - 1] == stmts[i]);
    }
}

/// Bindings that can persist across instructions: neither temporaries nor
/// flags.
pub open spec fn filter_const_spec(env: Seq<(HVar, Word)>) -> Seq<(HVar, Word)> {
    env.filter(|p: (HVar, Word)| crate::var::trackable(p.0))
}

/// Executable form of `filter_const_spec`.
fn filter_const(env: Vec<(HVar, Word)>) -> (res: Vec<(HVar, Word)>)
    ensures
        res@ == filter_const_spec(env@),
{
    let n = env.len();
    let mut out: Vec<(HVar, Word)> = Vec::new();
    assert(out@ =~= filter_const_spec(env@.take(0))) by {
        reveal_with_fuel(Seq::filter, 2);
        assert(env@.take(0) =~= Seq::<(HVar, Word)>::empty());
    }
    for i in 0..n
        invariant
            n == env.len(),
            out@ =~= filter_const_spec(env@.take(i as int)),
    {
        proof {
            reveal_with_fuel(Seq::filter, 2);
            assert(env@.take(i + 1).drop_last() =~= env@.take(i as int));
            assert(env@.take(i + 1).last() == env@[i as int]);
        }
        if crate::var::is_trackable(&env[i].0) {
            out.push(env[i]);
        }
    }
    proof {
        assert(env@.take(n as int) =~= env@);
    }
    out
}

/// Runs the constant-environment transfer over a whole instruction from a
/// given initial environment.
fn fold_const(env: Vec<(HVar, Word)>, sema: &Sema) -> (res: Vec<(HVar, Word)>)
    ensures
        res@ == fold_const_spec(env@, sema.stmts@),
{
    let ghost init = env@;
    let mut env = env;
    let n = sema.stmts.len();
    for i in 0..n
        invariant
            n == sema.stmts.len(),
            env@ == fold_const_spec(init, sema.stmts@.take(i as int)),
    {
        proof {
            lemma_fold_const_take_step(init, sema.stmts@, i as int);
        }
        env = const_prop_h(env, &sema.stmts[i]);
    }
    proof {
        assert(sema.stmts@.take(n as int) =~= sema.stmts@);
    }
    env
}

/// The constant bindings an instruction establishes from nothing: its
/// statement list run over the empty environment, restricted to
/// persistent locations.
pub open spec fn const_init_spec(sema: Sema) -> Seq<(HVar, Word)> {
    filter_const_spec(fold_const_spec(Seq::empty(), sema.stmts@))
}

/// Executable form of `const_init_spec`.
pub fn const_init(sema: &Sema) -> (res: Vec<(HVar, Word)>)
    ensures
        res@ == const_init_spec(*sema),
{
    let env: Vec<(HVar, Word)> = Vec::new();
    let out = fold_const(env, sema);
    filter_const(out)
}

/// The constant bindings after an instruction, starting from one known
/// binding, restricted to persistent locations.
pub open spec fn const_prop_spec(sema: Sema, var: HVar, k: Word) -> Seq<(HVar, Word)> {
    filter_const_spec(fold_const_spec(seq![(var, k)], sema.stmts@))
}

/// Executable form of `const_prop_spec`.
pub fn const_prop(sema: &Sema, var: &HVar, k: Word) -> (res: Vec<(HVar, Word)>)
    ensures
        res@ == const_prop_spec(*sema, *var, k),
{
    let mut env: Vec<(HVar, Word)> = Vec::new();
    env.push((*var, k));
    let out = fold_const(env, sema);
    filter_const(out)
}

// ---------------------------------------------------------------------------
// Heap-alias discovery
// ---------------------------------------------------------------------------

/// One step of heap-alias class evolution: every class is pushed through
/// the taint transfer of the statement; then a register loaded through a
/// promotable, non-stack pointer starts a fresh class, unless that
/// register is already tracked by some class.
pub open spec fn heap_classes_step_spec(classes: Seq<Seq<HVar>>, stmt: Stmt) -> Seq<Seq<HVar>> {
    let moved = classes.map_values(|c: Seq<HVar>| proc_stmt_spec(c, stmt));
    match stmt {
        Stmt::Move { lhs, rhs } => {
            if is_reg_spec(lhs) {
                match rhs {
                    Expr::Load { index } => {
                        let hvar = HVar { inner: lhs, offset: None };
                        if !(exists|i: int| 0 <= i < moved.len() && (#[trigger] moved[i]).contains(hvar)) {
                            match promote_idx_spec(*index) {
                                Some(hv) => if !crate::var::spec_stack_var(hv) {
                                    moved.push(seq![hvar])
                                } else {
                                    moved
                                },
                                None => moved,
                            }
                        } else {
                            moved
                        }
                    },
                    _ => moved,
                }
            } else {
                moved
            }
        },
        _ => moved,
    }
}

/// Executable form of `heap_classes_step_spec`.
pub fn heap_prop(classes: Vec<Vec<HVar>>, stmt: &Stmt) -> (res: Vec<Vec<HVar>>)
    ensures
        res@.map_values(|c: Vec<HVar>| c@) == heap_classes_step_spec(
            classes@.map_values(|c: Vec<HVar>| c@),
            *stmt,
        ),
{
    let ghost orig = classes@.map_values(|c: Vec<HVar>| c@);
    let n = classes.len();
    let mut moved: Vec<Vec<HVar>> = Vec::new();
    for i in 0..n
        invariant
            n == classes.len(),
            moved.len() == i,
            orig == classes@.map_values(|c: Vec<HVar>| c@),
            forall|j: int| 0 <= j < i ==> (#[trigger] moved@[j])@ == proc_stmt_spec(orig[j], *stmt),
    {
        let c = proc_stmt(vec_hvar_clone(&classes[i]), stmt);
        moved.push(c);
    }
    let ghost moved_spec = orig.map_values(|c: Seq<HVar>| proc_stmt_spec(c, *stmt));
    proof {
        assert(moved@.map_values(|c: Vec<HVar>| c@) =~= moved_spec);
    }
    let mut tracked_new: Option<HVar> = None;
    match stmt {
        Stmt::Move { lhs, rhs } => {
            if is_reg(lhs) {
                match rhs {
                    Expr::Load { index } => {
                        let hvar = HVar { inner: *lhs, offset: None };
                        let mut found = false;
                        let m = moved.len();
                        for i in 0..m
                            invariant
                                m == moved.len(),
                                moved@.map_values(|c: Vec<HVar>| c@) == moved_spec,
                                found == (exists|j: int| 0 <= j < i && (#[trigger] moved_spec[j]).contains(hvar)),
                        {
                            if contains_hvar(&moved[i], &hvar) {
                                proof {
                                    assert(moved_spec[i as int].contains(hvar));
                                }
                                found = true;
                            }
                        }
                        if !found {
                            match promote_idx(index) {
                                Some(hv) => {
                                    if !crate::var::stack_hvar(&hv) {
                                        tracked_new = Some(hvar);
                                    }
                                },
                                None => {},
                            }
                        }
                    },
                    _ => {},
                }
            }
        },
        _ => {},
    }
    match tracked_new {
        Some(hvar) => {
            let mut fresh: Vec<HVar> = Vec::new();
            fresh.push(hvar);
            moved.push(fresh);
            proof {
                assert(moved@.map_values(|c: Vec<HVar>| c@) =~= heap_classes_step_spec(orig, *stmt));
            }
            moved
        },
        None => {
            proof {
                assert(moved@.map_values(|c: Vec<HVar>| c@) =~= heap_classes_step_spec(orig, *stmt));
            }
            moved
        },
    }
}

/// Copies a vector of locations.
pub fn vec_hvar_clone(v: &Vec<HVar>) -> (res: Vec<HVar>)
    ensures
        res@ == v@,
{
    let mut out: Vec<HVar> = Vec::new();
    let n = v.len();
    for i in 0..n
        invariant
            n == v.len(),
            out@ =~= v@.take(i as int),
    {
        out.push(v[i]);
        proof {
            assert(v@.take(i + 1) =~= v@.take(i as int).push(v@[i as int]));
        }
    }
    proof {
        assert(v@.take(n as int) =~= v@);
    }
    out
}

/// Folds `heap_classes_step_spec` over a statement list from no classes.
pub open spec fn fold_heap_spec(classes: Seq<Seq<HVar>>, stmts: Seq<Stmt>) -> Seq<Seq<HVar>>
    decreases stmts.len(),
{
    if stmts.len() == 0 {
        classes
    } else {
        fold_heap_spec(heap_classes_step_spec(classes, stmts[0]), stmts.drop_first())
    }
}

/// `fold_heap_spec` over `take(i + 1)` is one step past `take(i)`.
proof fn lemma_fold_heap_take_step(classes: Seq<Seq<HVar>>, stmts: Seq<Stmt>, i: int)
    requires
        0 <= i < stmts.len(),
    ensures
        fold_heap_spec(classes, stmts.take(i + 1)) == heap_classes_step_spec(
            fold_heap_spec(classes, stmts.take(i)),
            stmts[i],
        ),
    decreases i,
{
    reveal_with_fuel(fold_heap_spec, 3);
    if i == 0 {
        assert(stmts.take(1).drop_first() =~= Seq::<Stmt>::empty());
        assert(stmts.take(0) =~= Seq::<Stmt>::empty());
        assert(stmts.take(1)[0] == stmts[0]);
    } else {
        lemma_fold_heap_take_step(heap_classes_step_spec(classes, stmts[0]), stmts.drop_first(), i - 1);
        assert(stmts.take(i + 1).drop_first() =~= stmts.drop_first().take(i));
        assert(stmts.take(i).drop_first() =~= stmts.drop_first().take(i - 1));
        assert(stmts.take(i + 1)[0] == stmts[0]);
        assert(stmts.take(i)[0] == stmts[0]);
        assert(stmts.drop_first()[i - 1] == stmts[i]);
    }
}

/// The heap-alias seed classes of one instruction, numbered in discovery
/// order, each restricted to persistent locations.
pub open spec fn heap_init_spec(sema: Sema) -> Seq<(u64, Seq<HVar>)> {
    let classes = fold_heap_spec(Seq::empty(), sema.stmts@);
    Seq::new(classes.len(), |i: int| (i as u64, filter_trackable_spec(classes[i])))
}

/// Executable form of `heap_init_spec`. The alias-set numbers stay below
/// the statement count, so they always fit.
pub fn heap_init(sema: &Sema) -> (res: Vec<(u64, Vec<HVar>)>)
    ensures
        res@.len() == heap_init_spec(*sema).len(),
        forall|i: int| 0 <= i < res@.len() ==> {
            &&& (#[trigger] res@[i]).0 == heap_init_spec(*sema)[i].0
            &&& res@[i].1@ == heap_init_spec(*sema)[i].1
        },
{
    let mut classes: Vec<Vec<HVar>> = Vec::new();
    let ghost init: Seq<Seq<HVar>> = Seq::empty();
    proof {
        assert(classes@.map_values(|c: Vec<HVar>| c@) =~= init);
    }
    let n = sema.stmts.len();
    for i in 0..n
        invariant
            n == sema.stmts.len(),
            classes@.map_values(|c: Vec<HVar>| c@) == fold_heap_spec(
                Seq::<Seq<HVar>>::empty(),
                sema.stmts@.take(i as int),
            ),
    {
        proof {
            lemma_fold_heap_take_step(Seq::<Seq<HVar>>::empty(), sema.stmts@, i as int);
        }
        classes = heap_prop(classes, &sema.stmts[i]);
    }
    proof {
        assert(sema.stmts@.take(n as int) =~= sema.stmts@);
    }
    let ghost final_classes = fold_heap_spec(Seq::<Seq<HVar>>::empty(), sema.stmts@);
    let m = classes.len();
    let mut out: Vec<(u64, Vec<HVar>)> = Vec::new();
    assert(m as nat <= u64::MAX) by {
        assert(classes@.map_values(|c: Vec<HVar>| c@).len() == classes@.len());
    }
    for i in 0..m
        invariant
            m == classes.len(),
            classes@.map_values(|c: Vec<HVar>| c@) == final_classes,
            out@.len() == i,
            m <= u64::MAX,
            forall|j: int| 0 <= j < i ==> {
                &&& (#[trigger] out@[j]).0 == j as u64
                &&& out@[j].1@ == filter_trackable_spec(final_classes[j])
            },
    {
        let filtered = filter_trackable(vec_hvar_clone(&classes[i]));
        proof {
            assert(classes@.map_values(|c: Vec<HVar>| c@)[i as int] == classes@[i as int]@);
        }
        out.push((i as u64, filtered));
    }
    out
}

// ---------------------------------------------------------------------------
// Odds and ends: windows into segments, format strings, bounded counters
// ---------------------------------------------------------------------------

/// Translates a live address inside a segment to a byte window of the
/// segment's data: the window starts at the address's offset from the
/// segment base and extends `len` bytes, clipped to the segment.
pub open spec fn rebase_spec(base: u64, end: u64, addr: u64, len: u64) -> Seq<(u64, u64)> {
    if base <= addr < end {
        let start = (addr - base) as u64;
        let datlen = (end - base) as u64;
        let stop = if start + len > datlen {
            datlen
        } else {
            (start + len) as u64
        };
        seq![(start, stop)]
    } else {
        Seq::empty()
    }
}

/// Executable form of `rebase_spec`.
pub fn rebase(base: u64, end: u64, addr: u64, len: u64) -> (res: Vec<(u64, u64)>)
    ensures
        res@ == rebase_spec(base, end, addr, len),
{
    if base <= addr && addr < end {
        let start = addr - base;
        let datlen = end - base;
        let stop = if len > datlen - start {
            datlen
        } else {
            start + len
        };
        let mut out: Vec<(u64, u64)> = Vec::new();
        out.push((start, stop));
        assert(out@ =~= rebase_spec(base, end, addr, len));
        out
    } else {
        assert(Seq::<(u64, u64)>::empty() =~= rebase_spec(base, end, addr, len));
        Vec::new()
    }
}

/// The longest zero-free prefix of a byte sequence: the bytes of a
/// C string read from its start.
pub open spec fn until_zero_spec(s: Seq<u8>) -> Seq<u8>
    decreases s.len(),
{
    if s.len() == 0 {
        Seq::empty()
    } else if s[0] == 0 {
        Seq::empty()
    } else {
        seq![s[0]] + until_zero_spec(s.drop_first())
    }
}

/// Reads the C string at `addr` out of a segment spanning
/// `[start, end)` with contents `data`: the zero-terminated bytes at the
/// address's offset, or nothing when the address is outside the segment.
pub open spec fn str_extract_spec(start: u64, end: u64, addr: u64, data: Seq<u8>) -> Option<Seq<u8>> {
    if start <= addr < end {
        if addr - start <= data.len() {
            Some(until_zero_spec(data.skip(addr - start)))
        } else {
            Some(Seq::empty())
        }
    } else {
        None
    }
}

/// Executable form of `str_extract_spec`.
pub fn str_extract(start: u64, end: u64, addr: u64, data: &Vec<u8>) -> (res: Option<Vec<u8>>)
    ensures
        match res {
            Some(out) => str_extract_spec(start, end, addr, data@) matches Some(s) && out@ == s,
            None => str_extract_spec(start, end, addr, data@) is None,
        },
{
    if !(start <= addr && addr < end) {
        return None;
    }
    let off = addr - start;
    let mut out: Vec<u8> = Vec::new();
    if off >= data.len() as u64 {
        assert(out@ =~= Seq::<u8>::empty());
        return Some(out);
    }
    let off = off as usize;
    proof {
        assert(off as int == addr - start);
    }
    let n = data.len();
    let mut i = off;
    while i < n
        invariant
            off <= i <= n,
            n == data.len(),
            start <= addr < end,
            off as int == addr - start,
            until_zero_spec(data@.skip(off as int)) == out@ + until_zero_spec(data@.skip(i as int)),
            forall|j: int| off <= j < i ==> data@[j] != 0,
        decreases n - i,
    {
        proof {
            assert(data@.skip(i as int)[0] == data@[i as int]);
            assert(data@.skip(i as int).drop_first() =~= data@.skip(i + 1));
        }
        if data[i] == 0 {
            assert(until_zero_spec(data@.skip(i as int)) =~= Seq::<u8>::empty());
            assert(out@ =~= out@ + until_zero_spec(data@.skip(i as int)));
            return Some(out);
        }
        let ghost pre = out@;
        out.push(data[i]);
        proof {
            assert(until_zero_spec(data@.skip(i as int)) == seq![data@[i as int]] + until_zero_spec(
                data@.skip(i + 1),
            ));
            assert(pre + until_zero_spec(data@.skip(i as int)) =~= out@ + until_zero_spec(
                data@.skip(i + 1),
            ));
        }
        i = i + 1;
    }
    proof {
        assert(data@.skip(n as int) =~= Seq::<u8>::empty());
        assert(until_zero_spec(data@.skip(n as int)) =~= Seq::<u8>::empty());
        assert(out@ =~= out@ + until_zero_spec(data@.skip(n as int)));
    }
    Some(out)
}

/// The argument count a printf-like format string implies, starting from
/// one for the format itself: each percent sign adds an argument and each
/// escaped `%%` takes one back, scanned over adjacent byte pairs.
pub open spec fn fmt_args_spec(s: Seq<u8>, n: int) -> int
    decreases n,
{
    if n <= 0 {
        1
    } else {
        fmt_args_spec(s, n - 1) + (if s[n - 1] == 37 {
            if n < s.len() && s[n] == 37 {
                -1
            } else {
                1
            }
        } else {
            0
        })
    }
}

/// The register-passed argument locations a format string makes a
/// printf-like routine read: one per implied argument, capped at the
/// calling convention's register count.
pub fn fmt_str_vars(fmt: &Vec<u8>) -> (res: Vec<HVar>)
    ensures
        res@.len() == {
            let args = fmt_args_spec(fmt@, fmt@.len() - 1);
            if args < 0 {
                0
            } else if args > crate::var::N_ARG_REGS {
                crate::var::N_ARG_REGS as int
            } else {
                args
            }
        },
        forall|i: int| 0 <= i < res@.len() ==> res@[i] == crate::var::spec_reg(
            (crate::var::REG_ARG0 + i) as u64,
        ),
{
    let n = fmt.len();
    let mut args: i128 = 1;
    let mut i: usize = 1;
    while i < n
        invariant
            1 <= i,
            i <= n || (n == 0 && i == 1),
            n == fmt@.len(),
            n >= 1 ==> args == fmt_args_spec(fmt@, i as int - 1),
            1 - (i as i128 - 1) <= args <= i as i128,
        decreases n - i,
    {
        if fmt[i - 1] == 37 {
            if fmt[i] == 37 {
                args = args - 1;
            } else {
                args = args + 1;
            }
        }
        i = i + 1;
    }
    proof {
        if n == 0 {
            assert(fmt_args_spec(fmt@, -1) == 1);
        }
    }
    let count: u64 = if args < 0 {
        0
    } else if args > crate::var::N_ARG_REGS as i128 {
        crate::var::N_ARG_REGS
    } else {
        args as u64
    };
    let mut out: Vec<HVar> = Vec::new();
    let mut k: u64 = 0;
    while k < count
        invariant
            k <= count,
            count <= crate::var::N_ARG_REGS,
            out@.len() == k,
            forall|j: int| 0 <= j < k ==> out@[j] == crate::var::spec_reg(
                (crate::var::REG_ARG0 + j) as u64,
            ),
        decreases count - k,
    {
        out.push(crate::var::get_arg_n(k as u8));
        k = k + 1;
    }
    out
}

/// The bounded trace-length step: a length below the bound advances by
/// one, a length at the bound stops the branch.
pub fn trace_len_inc(len: usize, i: u64) -> (res: Vec<u64>)
    ensures
        i < len as u64 ==> res@ =~= seq![(i + 1) as u64],
        i >= len as u64 ==> res@ =~= Seq::<u64>::empty(),
{
    if i < len as u64 {
        let mut out: Vec<u64> = Vec::new();
        out.push(i + 1);
        out
    } else {
        Vec::new()
    }
}

/// The bounded call-stack depth step: a depth below five advances by one,
/// a depth at five stops the branch.
pub fn stack_len_inc(i: &u64) -> (res: Vec<u64>)
    ensures
        *i < 5 ==> res@ =~= seq![(*i + 1) as u64],
        *i >= 5 ==> res@ =~= Seq::<u64>::empty(),
{
    if *i < 5 {
        let mut out: Vec<u64> = Vec::new();
        out.push(*i + 1);
        out
    } else {
        Vec::new()
    }
}

} // verus!
