//! Lifted instruction semantics: a word model for bit-vector constants and
//! the statement/expression trees the per-instruction analyses walk.

use vstd::prelude::*;

verus! {

/// A bit-vector constant: an unsigned value of `width` bits, `width <= 64`.
#[derive(Clone, Copy, Debug, PartialEq, Eq, Structural)]
pub struct Word {
    pub val: u64,
    pub width: u16,
}

/// A word is well formed when its width fits the machine word and its value
/// fits its width.
pub open spec fn word_wf(w: Word) -> bool {
    w.width <= 64 && (w.width < 64 ==> w.val < (1u64 << w.width))
}

/// Binary operators; only addition is interpreted by the analyses, every
/// other operator is carried opaquely.
#[derive(Clone, Copy, Debug, PartialEq, Eq, Structural)]
pub enum BinOp {
    Add,
    Other,
}

/// Cast kinds; `Low` truncates, `Unsigned` zero-extends, every other kind
/// is carried opaquely.
#[derive(Clone, Copy, Debug, PartialEq, Eq, Structural)]
pub enum CastKind {
    Low,
    Unsigned,
    Other,
}

/// A lifted-IR expression. Memory, endianness and access-size operands that
/// the analyses never read are not modelled.
#[derive(Debug)]
pub enum Expr {
    Var(crate::var::Variable),
    Const(Word),
    Load { index: Box<Expr> },
    Store { index: Box<Expr>, value: Box<Expr> },
    BinOp { op: BinOp, lhs: Box<Expr>, rhs: Box<Expr> },
    Cast { kind: CastKind, width: u16, arg: Box<Expr> },
    Unknown,
}

/// A lifted-IR statement.
#[derive(Debug)]
pub enum Stmt {
    Move { lhs: crate::var::Variable, rhs: Expr },
    Jump(Expr),
    While { cond: Expr, body: Vec<Stmt> },
    IfThenElse { cond: Expr, then_clause: Vec<Stmt>, else_clause: Vec<Stmt> },
    Special,
}

/// The decoded semantics of one instruction: its statements in execution
/// order.
#[derive(Debug)]
pub struct Sema {
    pub stmts: Vec<Stmt>,
}

/// Validates raw statement lists from the lifter boundary.
#[derive(Clone, Copy, Debug, PartialEq, Eq, Structural)]
pub struct SemaType;

impl SemaType {
    /// The relation-column name this type is stored under.
    pub fn name(&self) -> (r: &'static str)
        ensures
            r@ == "sema"@,
    {
        "sema"
    }

    /// Wraps a statement list as one instruction's semantics.
    pub fn extract(&self, stmts: Vec<Stmt>) -> (r: Sema)
        ensures
            r.stmts@ == stmts@,
    {
        Sema { stmts }
    }
}

} // verus!
