//! The value-shape vocabulary of the block-typing experiment: abstract
//! types for machine values, the assumptions a typed block makes, and the
//! register-file/stack shape of a block at entry.

use vstd::prelude::*;

verus! {

/// An abstract machine-value type: a type variable, an integer of a
/// width, a pointer to a typed value, a pointer into a partial points-to
/// map, or code of a block type.
#[derive(Debug)]
pub enum ValType {
    Var(u64),
    UInt { width: u32 },
    Int { width: u32 },
    Ptr(Box<ValType>),
    PartPtr(Vec<(i64, ValType)>),
    Code(Box<BlockType>),
}

/// What a typed block assumes of its context: a named assumption
/// variable, a conjunction, or that a given address has a given block
/// type.
#[derive(Debug)]
pub enum Assumes {
    Var(u64),
    Many(Vec<Assumes>),
    AddrType(u64, BlockType),
}

/// The shape of a block at entry: the types of its register file and
/// stack slots, and what it assumes.
#[derive(Debug)]
pub struct BlockType {
    pub register_file: Vec<ValType>,
    pub stack: Vec<ValType>,
    pub assumes: Box<Assumes>,
}

/// Validates raw block-type data from the store boundary.
#[derive(Clone, Copy, Debug, PartialEq, Eq, Structural)]
pub struct BlockTypeType;

impl BlockTypeType {
    /// The relation-column name this type is stored under.
    pub fn name(&self) -> (r: &'static str)
        ensures
            r@ == "blocktype"@,
    {
        "blocktype"
    }

    /// Assembles a block type from its parts.
    pub fn extract(&self, register_file: Vec<ValType>, stack: Vec<ValType>, assumes: Assumes) -> (r:
        BlockType)
        ensures
            r.register_file@ == register_file@,
            r.stack@ == stack@,
    {
        BlockType { register_file, stack, assumes: Box::new(assumes) }
    }
}

} // verus!
