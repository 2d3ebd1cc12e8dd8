//! Interprocedural, context-bounded static detection of use-after-free
//! defects in lifted machine code.
//!
//! The crate is organised around a small data model for lifted instruction
//! semantics (`var`, `sema`), per-instruction analyses (`analyses`): control
//! transfer resolution, taint transfer, dereference testing and straight-line
//! constant propagation, bounded call-context machinery (`chop`, `stack`,
//! `trace`), and a staged, monotone fixpoint engine (`schema`, `engine`) that
//! drives the path-alias analysis from allocation sites to genuine
//! dereferences of possibly-freed pointers.
//!
//! Binary loading, disassembly and lifting are external collaborators: the
//! engine consumes their output as plain values (addresses, statement lists,
//! symbol tables) and exposes the set of addresses it still wants lifted.

pub mod analyses;
pub mod bvlist;
pub mod chop;
pub mod engine;
pub mod repr;
pub mod schema;
pub mod stack;
pub mod trace;
pub mod sema;
pub mod ubvs;
pub mod var;
