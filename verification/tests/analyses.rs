use tiamat::analyses::{successors, deref_var, xfer_taint, is_computed_jump, rebase, stack_len_inc, trace_len_inc};
use tiamat::sema::{Sema, Stmt, Expr, Word, BinOp};
use tiamat::var::{HVar, Variable, VarKind, get_ret, get_arg0};
use tiamat::chop::Chop;

fn reg(code: u64) -> Variable {
    Variable { name: code, kind: VarKind::Immediate(64), tmp: false, index: 0 }
}

#[test]
fn jump_to_constant_yields_single_target() {
    let sema = Sema { stmts: vec![Stmt::Jump(Expr::Const(Word { val: 0x40, width: 64 }))] };
    let succ = successors(&sema, 0x99);
    assert_eq!(succ, vec![0x40]);
}

#[test]
fn plain_instruction_falls_through() {
    let sema = Sema { stmts: vec![Stmt::Special] };
    let succ = successors(&sema, 0x77);
    assert_eq!(succ, vec![0x77]);
}

#[test]
fn computed_jump_detected() {
    let sema = Sema { stmts: vec![Stmt::Jump(Expr::Var(reg(3)))] };
    assert!(is_computed_jump(&sema));
    assert_eq!(successors(&sema, 5), Vec::<u64>::new());
}

#[test]
fn deref_offset_exactness() {
    // load through base register at offset zero
    let load = Stmt::Move { lhs: reg(9), rhs: Expr::Load { index: Box::new(Expr::Var(reg(3))) } };
    let sema = Sema { stmts: vec![load] };
    let tracked_reg = HVar { inner: reg(3), offset: None };
    let tracked_off = HVar { inner: reg(3), offset: Some(8) };
    assert!(deref_var(&sema, &tracked_reg));
    assert!(!deref_var(&sema, &tracked_off));
}

#[test]
fn taint_transfers_through_move() {
    // move tracked register into another register
    let mv = Stmt::Move { lhs: reg(5), rhs: Expr::Var(reg(0)) };
    let sema = Sema { stmts: vec![mv] };
    let out = xfer_taint(&sema, &get_ret());
    assert!(out.contains(&get_ret()));
    assert!(out.contains(&HVar { inner: reg(5), offset: None }));
}

#[test]
fn taint_cleared_by_untainted_move() {
    let mv = Stmt::Move { lhs: reg(0), rhs: Expr::Const(Word { val: 1, width: 64 }) };
    let sema = Sema { stmts: vec![mv] };
    let out = xfer_taint(&sema, &get_ret());
    assert!(out.is_empty());
}

#[test]
fn chop_bound_three() {
    let c0 = Chop::new();
    let c1 = c0.check(10)[0];
    let c2 = c1.check(20)[0];
    let c3 = c2.check(30)[0];
    assert_eq!(c3.check(30).len(), 1);
    assert_eq!(c3.check(40).len(), 0);
    assert!(c3.count <= 3);
}

#[test]
fn counters_are_bounded() {
    assert_eq!(stack_len_inc(&4), vec![5]);
    assert_eq!(stack_len_inc(&5), Vec::<u64>::new());
    assert_eq!(trace_len_inc(9, 8), vec![9]);
    assert_eq!(trace_len_inc(9, 9), Vec::<u64>::new());
    let _ = get_arg0();
}

#[test]
fn rebase_clips_to_segment() {
    assert_eq!(rebase(0x1000, 0x2000, 0x1ff8, 16), vec![(0xff8, 0x1000)]);
    assert_eq!(rebase(0x1000, 0x2000, 0x2000, 16), Vec::<(u64, u64)>::new());
}

#[test]
fn binop_op_other_is_carried() {
    let _ = BinOp::Other;
}
