use tiamat::engine::uaf;
use tiamat::schema::{setup, Entry, Instr, LinkPad};
use tiamat::sema::{Expr, Sema, Stmt, Word};
use tiamat::var::{Variable, VarKind, REG_ARG0, REG_RET};

fn reg(code: u64) -> Variable {
    Variable { name: code, kind: VarKind::Immediate(64), tmp: false, index: 0 }
}

fn call_sema(target: u64) -> Sema {
    Sema { stmts: vec![Stmt::Jump(Expr::Const(Word { val: target, width: 64 }))] }
}

fn instr(bin: u64, addr: u64, sema: Sema, fall: u64, is_call: bool, is_ret: bool) -> Instr {
    Instr { bin, addr, sema, fall, disasm: String::new(), is_call, is_ret }
}

/// One binary: call malloc, move the result into the argument register,
/// call free, then act on the freed pointer (or not).
fn load_scenario(deref_after_free: bool) -> tiamat::schema::Db {
    let mut db = setup(9, false);
    let bin = db.intern_binary("sample".to_string());
    db.add_entry(Entry { bin, sym: "main".to_string(), start: 0x10, end: 0x20 });
    db.add_link_pad(LinkPad { bin, name: "malloc".to_string(), addr: 0x90 });
    db.add_link_pad(LinkPad { bin, name: "free".to_string(), addr: 0x91 });
    assert!(db.add_instr(instr(bin, 0x10, call_sema(0x90), 0x11, true, false)));
    let mov = Sema {
        stmts: vec![Stmt::Move { lhs: reg(REG_ARG0), rhs: Expr::Var(reg(REG_RET)) }],
    };
    assert!(db.add_instr(instr(bin, 0x11, mov, 0x12, false, false)));
    assert!(db.add_instr(instr(bin, 0x12, call_sema(0x91), 0x13, true, false)));
    let last = if deref_after_free {
        Sema {
            stmts: vec![Stmt::Move {
                lhs: reg(5),
                rhs: Expr::Load { index: Box::new(Expr::Var(reg(REG_ARG0))) },
            }],
        }
    } else {
        Sema {
            stmts: vec![Stmt::Move {
                lhs: reg(5),
                rhs: Expr::Const(Word { val: 7, width: 64 }),
            }],
        }
    };
    assert!(db.add_instr(instr(bin, 0x13, last, 0x14, false, false)));
    db
}

#[test]
fn malloc_free_deref_is_reported() {
    let mut db = load_scenario(true);
    let quiesced = uaf(&mut db, 64);
    assert!(quiesced);
    assert!(db.uaf_flows.len() >= 1);
    assert!(db.uafs.len() >= 1);
    let f = &db.uafs[0];
    assert_eq!(f.src_addr, 0x10);
    assert_eq!(f.sink_addr, 0x13);
}

#[test]
fn malloc_free_without_reuse_is_silent() {
    let mut db = load_scenario(false);
    let quiesced = uaf(&mut db, 64);
    assert!(quiesced);
    assert_eq!(db.uaf_flows.len(), 0);
    assert_eq!(db.uafs.len(), 0);
}

#[test]
fn rerun_after_quiescence_derives_nothing() {
    let mut db = load_scenario(true);
    assert!(uaf(&mut db, 64));
    let counts = (
        db.succs.len(),
        db.lives.len(),
        db.succ_overs.len(),
        db.call_sites.len(),
        db.funcs.len(),
        db.stacks.len(),
        db.path_aliases.len(),
        db.uaf_flows.len(),
        db.traces.len(),
        db.uafs.len(),
    );
    assert!(uaf(&mut db, 64));
    let again = (
        db.succs.len(),
        db.lives.len(),
        db.succ_overs.len(),
        db.call_sites.len(),
        db.funcs.len(),
        db.stacks.len(),
        db.path_aliases.len(),
        db.uaf_flows.len(),
        db.traces.len(),
        db.uafs.len(),
    );
    assert_eq!(counts, again);
}

#[test]
fn duplicate_lift_is_refused() {
    let mut db = setup(9, false);
    let bin = db.intern_binary("sample".to_string());
    assert!(db.add_instr(instr(bin, 0x10, call_sema(0x90), 0x11, true, false)));
    assert!(!db.add_instr(instr(bin, 0x10, call_sema(0x92), 0x11, true, false)));
    assert_eq!(db.instrs.len(), 1);
}

#[test]
fn pending_lifts_lists_uncovered_live_addresses() {
    let mut db = load_scenario(true);
    assert!(uaf(&mut db, 64));
    let pending = db.pending_lifts();
    // the fallthrough after the last modeled instruction is live but unlifted
    assert!(pending.iter().any(|l| l.addr == 0x14));
    assert!(pending.iter().all(|l| l.addr != 0x11));
}
