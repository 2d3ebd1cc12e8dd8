//! The location abstraction: registers and memory cells tracked by the
//! analysis.
//!
//! A `Variable` is a lifted-IR variable; register identity is carried as a
//! small integer code assigned by the embedder, with fixed codes for the
//! registers the calling convention distinguishes. An `HVar` ("high
//! variable") is an abstract storage location: either a register (no offset)
//! or a memory cell `base + offset`.

use vstd::prelude::*;

verus! {

/// Register code of the return-value register (RAX).
pub const REG_RET: u64 = 0;

/// Register codes of the six integer argument registers, in calling
/// convention order: RDI, RSI, RDX, RCX, R8, R9.
pub const REG_ARG0: u64 = 1;

/// Register code of the stack pointer (RSP).
pub const REG_SP: u64 = 7;

/// Register code of the frame pointer (RBP).
pub const REG_BP: u64 = 8;

/// The number of argument registers the calling convention passes in
/// registers.
pub const N_ARG_REGS: u64 = 6;

/// The type of a lifted-IR variable: an immediate (register or flag) of a
/// given bit width, or a memory.
#[derive(Clone, Copy, Debug, PartialEq, Eq, Structural)]
pub enum VarKind {
    Immediate(u16),
    Memory,
}

/// A lifted-IR variable. `name` is the embedder-assigned register code,
/// `tmp` marks lifter-introduced temporaries, `index` is the SSA-style
/// subscript the lifter attaches.
#[derive(Clone, Copy, Debug, PartialEq, Eq, Structural)]
pub struct Variable {
    pub name: u64,
    pub kind: VarKind,
    pub tmp: bool,
    pub index: u64,
}

/// An abstract storage location: a register (`offset == None`) or the
/// memory cell at `inner + offset`.
#[derive(Clone, Copy, Debug, PartialEq, Eq, Structural)]
pub struct HVar {
    pub inner: Variable,
    pub offset: Option<u64>,
}

impl HVar {
    /// True iff this location is not a lifter temporary.
    pub fn not_temp(&self) -> (r: bool)
        ensures
            r == !self.inner.tmp,
    {
        !self.inner.tmp
    }
}

/// A location is a persistent taint carrier only if it is neither a
/// temporary nor a single-bit flag register.
pub open spec fn trackable(v: HVar) -> bool {
    !v.inner.tmp && v.inner.kind != VarKind::Immediate(1)
}

/// Executable form of `trackable`.
pub fn is_trackable(v: &HVar) -> (r: bool)
    ensures
        r == trackable(*v),
{
    !v.inner.tmp && !(v.inner.kind == VarKind::Immediate(1))
}

/// A full-width, non-temporary register as a `Variable`.
pub open spec fn spec_reg_var(code: u64) -> Variable {
    Variable { name: code, kind: VarKind::Immediate(64), tmp: false, index: 0 }
}

/// A full-width, non-temporary register as a location.
pub open spec fn spec_reg(code: u64) -> HVar {
    HVar { inner: spec_reg_var(code), offset: None }
}

/// Builds the location for a register code.
pub fn reg(code: u64) -> (r: HVar)
    ensures
        r == spec_reg(code),
{
    HVar { inner: Variable { name: code, kind: VarKind::Immediate(64), tmp: false, index: 0 }, offset: None }
}

/// The location holding a routine's first argument at a call.
pub fn get_arg0() -> (r: HVar)
    ensures
        r == spec_reg(REG_ARG0),
{
    reg(REG_ARG0)
}

/// The location holding the `n`-th register-passed argument at a call.
pub fn get_arg_n(n: u8) -> (r: HVar)
    requires
        n < N_ARG_REGS,
    ensures
        r == spec_reg((REG_ARG0 + n) as u64),
{
    reg(REG_ARG0 + n as u64)
}

/// The location holding a routine's return value after it returns.
pub fn get_ret() -> (r: HVar)
    ensures
        r == spec_reg(REG_RET),
{
    reg(REG_RET)
}

/// A stack-frame register: taint held there is a stack address, not a
/// heap-cell alias, so heap-alias seeding ignores loads through it.
pub open spec fn spec_stack_var(v: HVar) -> bool {
    v.inner.name == REG_SP || v.inner.name == REG_BP
}

/// Executable form of `spec_stack_var`.
pub fn stack_hvar(hv: &HVar) -> (r: bool)
    ensures
        r == spec_stack_var(*hv),
{
    hv.inner.name == REG_SP || hv.inner.name == REG_BP
}

/// Validates raw location data from the embedder: any register code is
/// accepted; the location is rejected only when it claims to be a memory
/// cell of a memory-typed base, which the lifter never produces.
#[derive(Clone, Copy, Debug, PartialEq, Eq, Structural)]
pub struct VarType;

impl VarType {
    /// The relation-column name this type is stored under.
    pub fn name(&self) -> (r: &'static str)
        ensures
            r@ == "var"@,
    {
        "var"
    }

    /// Rebuilds a location from its plain parts.
    pub fn extract(&self, name: u64, width: u16, memory: bool, tmp: bool, index: u64, offset: Option<u64>) -> (r: HVar)
        ensures
            r.inner.name == name,
            r.inner.tmp == tmp,
            r.inner.index == index,
            r.offset == offset,
            r.inner.kind == (if memory { VarKind::Memory } else { VarKind::Immediate(width) }),
    {
        HVar {
            inner: Variable {
                name,
                kind: if memory { VarKind::Memory } else { VarKind::Immediate(width) },
                tmp,
                index,
            },
            offset,
        }
    }
}

} // verus!
