//! Errors of the lowering pipeline.
use vstd::prelude::*;
use crate::instruction::Label;

verus! {

/// A compile error raised while lowering a program.
#[derive(Clone, Copy, Debug, PartialEq, Eq, Structural)]
pub enum CompileError {
    /// A jump, conditional jump or call refers to a label that the program does not define
    /// exactly once.
    UnresolvedLabel(Label),
    /// An instruction reads a virtual register that no instruction of its function writes.
    UndefinedRegister(u64),
    /// The virtual register interferes with registers holding every number of the pool.
    TooManyRegisters(u64),
    /// A new-encoding contract has no entry named `__entry`.
    MissingEntry,
}

} // verus!
