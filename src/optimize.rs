//! The peephole pass over abstract instructions.
use vstd::prelude::*;
use crate::instruction::{defined_label, target_of, Op, Opcode, VirtualRegister};
use crate::sections::{word_at, DataEntry, DataSection};

verus! {

/// A `Move` whose source and destination are the same register: it does nothing.
pub open spec fn is_redundant<R>(op: Op<R>) -> bool {
    match op {
        Op::Machine(Opcode::Move(d, s)) => d == s,
        _ => false,
    }
}

/// A load of a data-section word that fits 18 bits becomes a `MovI` of that word.
pub open spec fn fold_op<R>(op: Op<R>, data: Seq<DataEntry>) -> Op<R> {
    match op {
        Op::Machine(Opcode::LoadDataId(r, id)) => match word_at(data, id) {
            Some(w) => if w < 0x40000 {
                Op::Machine(Opcode::MovI(r, w as u32))
            } else {
                op
            },
            None => op,
        },
        _ => op,
    }
}

/// The operations after the peephole pass: redundant moves dropped, small data loads folded.
pub open spec fn optimized<R>(ops: Seq<Op<R>>, data: Seq<DataEntry>) -> Seq<Op<R>>
    decreases ops.len(),
{
    if ops.len() == 0 {
        Seq::empty()
    } else if is_redundant(ops.last()) {
        optimized(ops.drop_last(), data)
    } else {
        optimized(ops.drop_last(), data).push(fold_op(ops.last(), data))
    }
}

/// Number of operations the peephole pass drops.
pub open spec fn redundant_count<R>(ops: Seq<Op<R>>) -> nat
    decreases ops.len(),
{
    if ops.len() == 0 {
        0
    } else if is_redundant(ops.last()) {
        redundant_count(ops.drop_last()) + 1
    } else {
        redundant_count(ops.drop_last())
    }
}

pub fn fold_op_exec<R: Copy>(op: Op<R>, data: &DataSection) -> (r: Op<R>)
    ensures
        r == fold_op(op, data.value_pairs@),
{
    match op {
        Op::Machine(Opcode::LoadDataId(r, id)) => match data.get_word(id) {
            Some(w) => if w < 0x40000 {
                Op::Machine(Opcode::MovI(r, w as u32))
            } else {
                op
            },
            None => op,
        },
        _ => op,
    }
}

pub fn is_redundant_exec(op: &Op<VirtualRegister>) -> (r: bool)
    ensures
        r == is_redundant(*op),
{
    match op {
        Op::Machine(Opcode::Move(d, s)) => *d == *s,
        _ => false,
    }
}

proof fn lemma_fold_idempotent<R>(op: Op<R>, data: Seq<DataEntry>)
    ensures
        fold_op(fold_op(op, data), data) == fold_op(op, data),
        is_redundant(fold_op(op, data)) == is_redundant(op),
        target_of(fold_op(op, data)) == target_of(op),
        defined_label(fold_op(op, data)) == defined_label(op),
{
}

/// Running the peephole pass a second time changes nothing.
pub proof fn lemma_optimize_idempotent<R>(ops: Seq<Op<R>>, data: Seq<DataEntry>)
    ensures
        optimized(optimized(ops, data), data) == optimized(ops, data),
    decreases ops.len(),
{
    if ops.len() > 0 {
        lemma_optimize_idempotent(ops.drop_last(), data);
        let o = optimized(ops.drop_last(), data);
        if !is_redundant(ops.last()) {
            let x = fold_op(ops.last(), data);
            lemma_fold_idempotent(ops.last(), data);
            let p = o.push(x);
            assert(p.drop_last() == o);
            assert(p.last() == x);
        }
    }
}

/// The peephole pass refers to no label and defines no label that the input did not.
pub proof fn lemma_optimize_keeps_labels<R>(ops: Seq<Op<R>>, data: Seq<DataEntry>, i: int)
    requires
        0 <= i < optimized(ops, data).len(),
    ensures
        exists|j: int|
            0 <= j < ops.len() && #[trigger] target_of(ops[j]) == target_of(optimized(ops, data)[i])
                && defined_label(ops[j]) == defined_label(optimized(ops, data)[i]),
    decreases ops.len(),
{
    let o = optimized(ops.drop_last(), data);
    if is_redundant(ops.last()) {
        lemma_optimize_keeps_labels(ops.drop_last(), data, i);
        let j = choose|j: int|
            0 <= j < ops.drop_last().len() && #[trigger] target_of(ops.drop_last()[j]) == target_of(o[i])
                && defined_label(ops.drop_last()[j]) == defined_label(o[i]);
        assert(ops[j] == ops.drop_last()[j]);
    } else if i < o.len() {
        lemma_optimize_keeps_labels(ops.drop_last(), data, i);
        let j = choose|j: int|
            0 <= j < ops.drop_last().len() && #[trigger] target_of(ops.drop_last()[j]) == target_of(o[i])
                && defined_label(ops.drop_last()[j]) == defined_label(o[i]);
        assert(ops[j] == ops.drop_last()[j]);
    } else {
        lemma_fold_idempotent(ops.last(), data);
        assert(target_of(ops[ops.len() - 1]) == target_of(optimized(ops, data)[i]));
    }
}

/// The peephole pass keeps every operation but the redundant moves it counts.
pub proof fn lemma_optimize_len<R>(ops: Seq<Op<R>>, data: Seq<DataEntry>)
    ensures
        optimized(ops, data).len() + redundant_count(ops) == ops.len(),
    decreases ops.len(),
{
    if ops.len() > 0 {
        lemma_optimize_len(ops.drop_last(), data);
    }
}

} // verus!
