//! Instructions, registers and labels shared by abstract and allocated code.
use vstd::prelude::*;

verus! {

/// Revert code raised when no contract selector matched the call.
pub const MISMATCHED_SELECTOR_REVERT_CODE: u32 = 123;

/// Number of registers the allocator may hand out.
pub const NUM_ALLOCATABLE_REGISTERS: u8 = 48;

/// An opaque jump target.
#[derive(Clone, Copy, Debug, PartialEq, Eq, Structural)]
pub struct Label(pub usize);

/// Identifier of a value stored in the data section: its position there.
#[derive(Clone, Copy, Debug, PartialEq, Eq, Structural)]
pub struct DataId(pub usize);

/// Registers with a fixed hardware purpose, never handed out by the allocator.
#[derive(Clone, Copy, Debug, PartialEq, Eq, Structural)]
pub enum ConstantRegister {
    Zero,
    One,
    ProgramCounter,
    StackPointer,
    FramePointer,
    InstructionStart,
    ReturnValue,
    Scratch,
    DataSectionStart,
    CallReturnAddress,
    CallReturnValue,
}

/// A register before allocation: an unbounded virtual register or a constant one.
#[derive(Clone, Copy, Debug, PartialEq, Eq, Structural)]
pub enum VirtualRegister {
    Virtual(u64),
    Constant(ConstantRegister),
}

/// A register after allocation: a numbered register from the pool or a constant one.
#[derive(Clone, Copy, Debug, PartialEq, Eq, Structural)]
pub enum AllocatedRegister {
    Allocated(u8),
    Constant(ConstantRegister),
}

/// Machine instructions, over a register type `R`.
#[derive(Clone, Copy, Debug, PartialEq, Eq, Structural)]
pub enum Opcode<R> {
    /// `dst = lhs + rhs`
    Add(R, R, R),
    /// `dst = lhs - rhs`
    Sub(R, R, R),
    /// `dst = (lhs == rhs)`
    Eq(R, R, R),
    /// `dst = src`
    Move(R, R),
    /// `dst = imm` (18 bits)
    MovI(R, u32),
    /// `dst = mem[base + 8 * imm]` (12 bits)
    Lw(R, R, u32),
    /// `mem[base + 8 * imm] = src` (12 bits)
    Sw(R, R, u32),
    /// `dst = data_section[id]`
    LoadDataId(R, DataId),
    /// Grows the call frame by `imm` bytes (24 bits).
    Cfei(u32),
    /// Reverts with the code held in the register.
    Rvrt(R),
    /// Returns the value held in the register.
    Ret(R),
    /// Saves the allocated registers `0 .. n`.
    PushRegs(u16),
    /// Restores the allocated registers `0 .. n`.
    PopRegs(u16),
    Noop,
}

/// Control-flow operations, over a register type `R`.
#[derive(Clone, Copy, Debug, PartialEq, Eq, Structural)]
pub enum ControlFlowOp<R> {
    /// Defines a jump target at this position.
    Label(Label),
    Jump(Label),
    JumpIfNotZero(R, Label),
    Call(Label),
    Comment,
    /// The 32-byte metadata block of the preamble.
    Metadata,
    /// A full word later patched with the data section's offset.
    DataSectionOffsetPlaceholder,
    /// Marks where the registers a function uses are saved.
    PushAll(Label),
    /// Marks where the registers a function uses are restored.
    PopAll(Label),
}

/// An operation: a machine instruction or a control-flow operation.
#[derive(Clone, Copy, Debug, PartialEq, Eq, Structural)]
pub enum Op<R> {
    Machine(Opcode<R>),
    Control(ControlFlowOp<R>),
}

/// An operation with its comment.
#[derive(Debug)]
pub struct Instruction<R> {
    pub opcode: Op<R>,
    pub comment: String,
}

pub type AbstractOp = Instruction<VirtualRegister>;

pub type AllocatedOp = Instruction<AllocatedRegister>;

/// Bytes an operation occupies in the final binary.
pub open spec fn op_size<R>(op: Op<R>) -> nat {
    match op {
        Op::Machine(_) => 4,
        Op::Control(c) => match c {
            ControlFlowOp::Jump(_) => 4,
            ControlFlowOp::JumpIfNotZero(_, _) => 4,
            ControlFlowOp::Call(_) => 4,
            ControlFlowOp::Metadata => 32,
            ControlFlowOp::DataSectionOffsetPlaceholder => 8,
            _ => 0,
        },
    }
}

/// Bytes a sequence of operations occupies.
pub open spec fn ops_size<R>(ops: Seq<Op<R>>) -> nat
    decreases ops.len(),
{
    if ops.len() == 0 {
        0
    } else {
        ops_size(ops.drop_last()) + op_size(ops.last())
    }
}

/// The opcodes of a sequence of operations, without their comments.
pub open spec fn opcodes<R>(ops: Seq<Instruction<R>>) -> Seq<Op<R>> {
    ops.map_values(|o: Instruction<R>| o.opcode)
}

/// The label that a jump, conditional jump or call refers to.
pub open spec fn target_of<R>(op: Op<R>) -> Option<Label> {
    match op {
        Op::Control(ControlFlowOp::Jump(l)) => Some(l),
        Op::Control(ControlFlowOp::JumpIfNotZero(_, l)) => Some(l),
        Op::Control(ControlFlowOp::Call(l)) => Some(l),
        _ => None,
    }
}

/// The label that the operation defines, if it is a `Label` operation.
pub open spec fn defined_label<R>(op: Op<R>) -> Option<Label> {
    match op {
        Op::Control(ControlFlowOp::Label(l)) => Some(l),
        _ => None,
    }
}

/// An operation with an empty comment.
pub fn plain_op<R>(opcode: Op<R>) -> (r: Instruction<R>)
    ensures
        r.opcode == opcode,
        r.comment@.len() == 0,
{
    Instruction { opcode, comment: String::new() }
}

/// An operation with the given comment.
pub fn commented_op<R>(opcode: Op<R>, comment: &str) -> (r: Instruction<R>)
    ensures
        r.opcode == opcode,
        r.comment@ == comment@,
{
    Instruction { opcode, comment: comment.to_owned() }
}

} // verus!
