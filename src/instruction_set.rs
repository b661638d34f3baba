//! Instruction sets: the peephole pass, verification and register allocation.
use vstd::prelude::*;
use crate::error::CompileError;
use crate::instruction::{
    opcodes, target_of, AbstractOp, AllocatedOp, ControlFlowOp, Instruction,
    Label, Op, Opcode, VirtualRegister,
};
use crate::optimize::{fold_op_exec, is_redundant_exec, optimized, redundant_count};
use crate::sections::DataSection;

verus! {

/// The registers an operation reads, in operand order.
pub open spec fn reads<R>(op: Op<R>) -> Seq<R> {
    match op {
        Op::Machine(m) => match m {
            Opcode::Add(_, a, b) => seq![a, b],
            Opcode::Sub(_, a, b) => seq![a, b],
            Opcode::Eq(_, a, b) => seq![a, b],
            Opcode::Move(_, s) => seq![s],
            Opcode::Lw(_, base, _) => seq![base],
            Opcode::Sw(base, s, _) => seq![base, s],
            Opcode::Rvrt(r) => seq![r],
            Opcode::Ret(r) => seq![r],
            _ => Seq::empty(),
        },
        Op::Control(ControlFlowOp::JumpIfNotZero(r, _)) => seq![r],
        _ => Seq::empty(),
    }
}

/// The register an operation writes, if any.
pub open spec fn written<R>(op: Op<R>) -> Option<R> {
    match op {
        Op::Machine(m) => match m {
            Opcode::Add(d, _, _) => Some(d),
            Opcode::Sub(d, _, _) => Some(d),
            Opcode::Eq(d, _, _) => Some(d),
            Opcode::Move(d, _) => Some(d),
            Opcode::MovI(d, _) => Some(d),
            Opcode::Lw(d, _, _) => Some(d),
            Opcode::LoadDataId(d, _) => Some(d),
            _ => None,
        },
        _ => None,
    }
}

/// Some operation writes the virtual register `v`.
pub open spec fn writes_virtual(ops: Seq<Op<VirtualRegister>>, v: u64) -> bool {
    exists|j: int| 0 <= j < ops.len() && #[trigger] written(ops[j]) == Some(VirtualRegister::Virtual(v))
}

/// A constant register, or a virtual one that some operation writes.
pub open spec fn register_defined(ops: Seq<Op<VirtualRegister>>, r: VirtualRegister) -> bool {
    match r {
        VirtualRegister::Virtual(v) => writes_virtual(ops, v),
        VirtualRegister::Constant(_) => true,
    }
}

/// Every virtual register that is read is written somewhere in the set.
pub open spec fn registers_defined(ops: Seq<Op<VirtualRegister>>) -> bool {
    forall|i: int, k: int|
        0 <= i < ops.len() && 0 <= k < reads(ops[i]).len() ==> register_defined(
            ops,
            #[trigger] reads(ops[i])[k],
        )
}

/// How many times `l` occurs in `labels`.
pub open spec fn count_of(labels: Seq<Label>, l: Label) -> nat
    decreases labels.len(),
{
    if labels.len() == 0 {
        0
    } else {
        count_of(labels.drop_last(), l) + if labels.last() == l {
            1nat
        } else {
            0nat
        }
    }
}

/// Every jump, conditional jump and call targets a label defined exactly once in `labels`.
pub open spec fn labels_resolved<R>(ops: Seq<Op<R>>, labels: Seq<Label>) -> bool {
    forall|i: int|
        0 <= i < ops.len() && (#[trigger] target_of(ops[i])).is_some() ==> count_of(
            labels,
            target_of(ops[i]).unwrap(),
        ) == 1
}

/// What `verify` accepts: labels resolved against the program's definitions, registers defined.
pub open spec fn well_formed_set(ops: Seq<Op<VirtualRegister>>, labels: Seq<Label>) -> bool {
    labels_resolved(ops, labels) && registers_defined(ops)
}

/// The error names what is wrong: a target not defined exactly once, or a virtual register read
/// but never written.
pub open spec fn verify_error(ops: Seq<Op<VirtualRegister>>, labels: Seq<Label>, e: CompileError) -> bool {
    match e {
        CompileError::UnresolvedLabel(l) => exists|i: int|
            0 <= i < ops.len() && #[trigger] target_of(ops[i]) == Some(l) && count_of(labels, l) != 1,
        CompileError::UndefinedRegister(v) => exists|i: int, k: int|
            0 <= i < ops.len() && 0 <= k < reads(ops[i]).len() && #[trigger] reads(ops[i])[k]
                == VirtualRegister::Virtual(v) && !writes_virtual(ops, v),
        _ => false,
    }
}

/// A function body over virtual registers.
pub struct AbstractInstructionSet {
    pub ops: Vec<AbstractOp>,
}

/// A function body over allocated registers.
pub struct AllocatedInstructionSet {
    pub ops: Vec<AllocatedOp>,
}

pub(crate) fn count_label(labels: &Vec<Label>, l: Label) -> (r: usize)
    ensures
        r == count_of(labels@, l),
{
    let mut c: usize = 0;
    let mut j: usize = 0;
    while j < labels.len()
        invariant
            j <= labels@.len(),
            c == count_of(labels@.take(j as int), l),
            c <= j,
        decreases labels@.len() - j,
    {
        assert(labels@.take(j + 1).drop_last() == labels@.take(j as int));
        if labels[j] == l {
            c = c + 1;
        }
        j = j + 1;
    }
    assert(labels@.take(j as int) == labels@);
    c
}

fn target_exec<R: Copy>(op: &Op<R>) -> (r: Option<Label>)
    ensures
        r == target_of(*op),
{
    match op {
        Op::Control(ControlFlowOp::Jump(l)) => Some(*l),
        Op::Control(ControlFlowOp::JumpIfNotZero(_, l)) => Some(*l),
        Op::Control(ControlFlowOp::Call(l)) => Some(*l),
        _ => None,
    }
}

fn reads_exec<R: Copy>(op: &Op<R>) -> (r: Vec<R>)
    ensures
        r@ == reads(*op),
{
    let mut v: Vec<R> = Vec::new();
    match op {
        Op::Machine(m) => match m {
            Opcode::Add(_, a, b) | Opcode::Sub(_, a, b) | Opcode::Eq(_, a, b) => {
                v.push(*a);
                v.push(*b);
            },
            Opcode::Move(_, s) => v.push(*s),
            Opcode::Lw(_, base, _) => v.push(*base),
            Opcode::Sw(base, s, _) => {
                v.push(*base);
                v.push(*s);
            },
            Opcode::Rvrt(r) | Opcode::Ret(r) => v.push(*r),
            _ => {},
        },
        Op::Control(ControlFlowOp::JumpIfNotZero(r, _)) => v.push(*r),
        _ => {},
    }
    assert(v@ =~= reads(*op));
    v
}

fn written_exec<R: Copy>(op: &Op<R>) -> (r: Option<R>)
    ensures
        r == written(*op),
{
    match op {
        Op::Machine(m) => match m {
            Opcode::Add(d, _, _) | Opcode::Sub(d, _, _) | Opcode::Eq(d, _, _) => Some(*d),
            Opcode::Move(d, _) | Opcode::MovI(d, _) | Opcode::Lw(d, _, _) => Some(*d),
            Opcode::LoadDataId(d, _) => Some(*d),
            _ => None,
        },
        _ => None,
    }
}

impl AbstractInstructionSet {
    pub open spec fn spec_ops(&self) -> Seq<Op<VirtualRegister>> {
        opcodes(self.ops@)
    }

    /// Drops moves of a register onto itself and folds loads of small data-section words into
    /// immediate moves. Comments stay with their instructions.
    pub fn optimize(&self, data_section: &DataSection) -> (r: Self)
        ensures
            r.spec_ops() == optimized(self.spec_ops(), data_section.value_pairs@),
            r.ops@.len() + redundant_count(self.spec_ops()) == self.ops@.len(),
    {
        let mut out: Vec<AbstractOp> = Vec::new();
        let mut i: usize = 0;
        let ghost input = self.spec_ops();
        while i < self.ops.len()
            invariant
                i <= self.ops@.len(),
                input == self.spec_ops(),
                opcodes(out@) == optimized(input.take(i as int), data_section.value_pairs@),
                out@.len() + redundant_count(input.take(i as int)) == i,
            decreases self.ops@.len() - i,
        {
            let ghost pre = input.take(i as int);
            assert(input.take(i + 1).drop_last() == pre);
            assert(input.take(i + 1).last() == self.ops@[i as int].opcode);
            let op = &self.ops[i];
            if !is_redundant_exec(&op.opcode) {
                let folded = fold_op_exec(op.opcode, data_section);
                let ghost before = out@;
                out.push(Instruction { opcode: folded, comment: op.comment.clone() });
                assert(opcodes(out@) =~= opcodes(before).push(folded));
            }
            i = i + 1;
        }
        assert(input.take(i as int) == input);
        AbstractInstructionSet { ops: out }
    }

    /// Checks that every jump, conditional jump and call targets a label that `program_labels`
    /// (the labels the whole program defines) holds exactly once, and that every virtual register
    /// read is written somewhere in the set. Returns the set unchanged.
    pub fn verify(self, program_labels: &Vec<Label>) -> (r: Result<Self, CompileError>)
        ensures
            r.is_ok() <==> well_formed_set(self.spec_ops(), program_labels@),
            r.is_ok() ==> r.unwrap().ops@ == self.ops@,
            r.is_err() ==> verify_error(self.spec_ops(), program_labels@, r->Err_0),
    {
        let mut i: usize = 0;
        let ghost ops = self.spec_ops();
        while i < self.ops.len()
            invariant
                i <= self.ops@.len(),
                ops == self.spec_ops(),
                labels_resolved(ops.take(i as int), program_labels@),
            decreases self.ops@.len() - i,
        {
            assert(ops[i as int] == self.ops@[i as int].opcode);
            match target_exec(&self.ops[i].opcode) {
                Some(l) => {
                    if count_label(program_labels, l) != 1 {
                        assert(!labels_resolved(ops, program_labels@)) by {
                            assert(target_of(ops[i as int]).is_some());
                        }
                        assert(verify_error(ops, program_labels@, CompileError::UnresolvedLabel(l)));
                        return Err(CompileError::UnresolvedLabel(l));
                    }
                },
                None => {},
            }
            assert forall|k: int|
                0 <= k < ops.take(i + 1).len() && (#[trigger] target_of(
                    ops.take(i + 1)[k],
                )).is_some() implies count_of(
                program_labels@,
                target_of(ops.take(i + 1)[k]).unwrap(),
            ) == 1 by {
                if k < i {
                    assert(ops.take(i + 1)[k] == ops.take(i as int)[k]);
                }
            }
            i = i + 1;
        }
        assert(ops.take(i as int) == ops);
        let mut i: usize = 0;
        while i < self.ops.len()
            invariant
                i <= self.ops@.len(),
                ops == self.spec_ops(),
                labels_resolved(ops, program_labels@),
                forall|i2: int, k: int|
                    0 <= i2 < i && 0 <= k < reads(ops[i2]).len() ==> register_defined(
                        ops,
                        #[trigger] reads(ops[i2])[k],
                    ),
            decreases self.ops@.len() - i,
        {
            assert(ops[i as int] == self.ops@[i as int].opcode);
            let rs = reads_exec(&self.ops[i].opcode);
            let mut k: usize = 0;
            while k < rs.len()
                invariant
                    i < self.ops@.len(),
                    k <= rs@.len(),
                    rs@ == reads(ops[i as int]),
                    ops == self.spec_ops(),
                    forall|i2: int, k2: int|
                        0 <= i2 < i && 0 <= k2 < reads(ops[i2]).len() ==> register_defined(
                            ops,
                            #[trigger] reads(ops[i2])[k2],
                        ),
                    forall|k2: int|
                        0 <= k2 < k ==> register_defined(ops, #[trigger] reads(ops[i as int])[k2]),
                decreases rs@.len() - k,
            {
                match rs[k] {
                    VirtualRegister::Virtual(v) => {
                        let mut found = false;
                        let mut j: usize = 0;
                        while j < self.ops.len()
                            invariant
                                j <= self.ops@.len(),
                                ops == self.spec_ops(),
                                found ==> writes_virtual(ops, v),
                                !found ==> forall|j2: int|
                                    0 <= j2 < j ==> #[trigger] written(ops[j2])
                                        != Some(VirtualRegister::Virtual(v)),
                            decreases self.ops@.len() - j,
                        {
                            assert(ops[j as int] == self.ops@[j as int].opcode);
                            match written_exec(&self.ops[j].opcode) {
                                Some(w) => {
                                    if w == VirtualRegister::Virtual(v) {
                                        found = true;
                                    }
                                },
                                None => {},
                            }
                            j = j + 1;
                        }
                        if !found {
                            assert(!registers_defined(ops)) by {
                                assert(reads(ops[i as int])[k as int] == VirtualRegister::Virtual(v));
                                assert(!register_defined(ops, reads(ops[i as int])[k as int]));
                            }
                            assert(verify_error(ops, program_labels@, CompileError::UndefinedRegister(v)));
                            return Err(CompileError::UndefinedRegister(v));
                        }
                    },
                    VirtualRegister::Constant(_) => {},
                }
                k = k + 1;
            }
            i = i + 1;
        }
        Ok(self)
    }
}

/// In a set that verifies, each jump, conditional jump and call targets a label defined exactly
/// once in the program; a set with a target defined nowhere, or more than once, does not verify.
pub proof fn lemma_verified_targets_resolve(ops: Seq<Op<VirtualRegister>>, labels: Seq<Label>, i: int)
    requires
        0 <= i < ops.len(),
        target_of(ops[i]).is_some(),
    ensures
        well_formed_set(ops, labels) ==> count_of(labels, target_of(ops[i]).unwrap()) == 1,
        count_of(labels, target_of(ops[i]).unwrap()) != 1 ==> !well_formed_set(ops, labels),
{
}

} // verus!
