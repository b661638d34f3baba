//! The contract selector switch: its shape, and what running it does.
use vstd::prelude::*;
use crate::instruction::{
    AllocatedRegister, ConstantRegister, ControlFlowOp, DataId, Label, Op, Opcode,
    MISMATCHED_SELECTOR_REVERT_CODE,
};
use crate::program::{AbstractEntry, SELECTOR_WORD_OFFSET};
use crate::sections::{word_at, DataEntry};

verus! {

/// Holds the selector of the incoming call.
pub open spec fn input_reg() -> AllocatedRegister {
    AllocatedRegister::Allocated(0)
}

/// Holds the selector of the case being compared.
pub open spec fn case_reg() -> AllocatedRegister {
    AllocatedRegister::Allocated(1)
}

/// Holds the result of the comparison.
pub open spec fn cmp_reg() -> AllocatedRegister {
    AllocatedRegister::Allocated(2)
}

pub open spec fn scratch() -> AllocatedRegister {
    AllocatedRegister::Constant(ConstantRegister::Scratch)
}

/// The selector bytes read as a big-endian 32-bit number.
pub open spec fn selector_word(s: [u8; 4]) -> u64 {
    (s@[0] as int * 0x100_0000 + s@[1] as int * 0x1_0000 + s@[2] as int * 0x100 + s@[3] as int) as u64
}

/// Number of entries that carry a selector.
pub open spec fn case_count(entries: Seq<AbstractEntry>) -> nat
    decreases entries.len(),
{
    if entries.len() == 0 {
        0
    } else {
        (if entries[0].selector.is_some() {
            1nat
        } else {
            0nat
        }) + case_count(entries.skip(1))
    }
}

/// The data-section words the switch stores: one per entry with a selector, in entry order.
pub open spec fn selector_words(entries: Seq<AbstractEntry>) -> Seq<DataEntry>
    decreases entries.len(),
{
    if entries.len() == 0 {
        Seq::empty()
    } else {
        (match entries[0].selector {
            Some(s) => seq![DataEntry::Word(selector_word(s))],
            None => Seq::empty(),
        }) + selector_words(entries.skip(1))
    }
}

/// The comparison block of one entry, whose selector word is stored under `id`.
pub open spec fn case_ops(e: AbstractEntry, id: nat) -> Seq<Op<AllocatedRegister>> {
    match e.selector {
        Some(_) => seq![
            Op::Machine(Opcode::LoadDataId(case_reg(), DataId(id as usize))),
            Op::Machine(Opcode::Eq(cmp_reg(), input_reg(), case_reg())),
            Op::Control(ControlFlowOp::JumpIfNotZero(cmp_reg(), e.label)),
        ],
        None => Seq::empty(),
    }
}

/// The comparison blocks of all entries, the words stored from data-section position `base`.
pub open spec fn cases(entries: Seq<AbstractEntry>, base: nat) -> Seq<Op<AllocatedRegister>>
    decreases entries.len(),
{
    if entries.len() == 0 {
        Seq::empty()
    } else {
        case_ops(entries[0], base) + cases(
            entries.skip(1),
            base + if entries[0].selector.is_some() {
                1nat
            } else {
                0nat
            },
        )
    }
}

/// Loading the selector of the incoming call.
pub open spec fn switch_head() -> Seq<Op<AllocatedRegister>> {
    seq![
        Op::Control(ControlFlowOp::Comment),
        Op::Machine(Opcode::Lw(input_reg(), AllocatedRegister::Constant(ConstantRegister::FramePointer), SELECTOR_WORD_OFFSET)),
    ]
}

/// What follows the cases: the call of the fallback, if any, then the revert.
pub open spec fn switch_tail(fallback: Option<Label>) -> Seq<Op<AllocatedRegister>> {
    (match fallback {
        Some(f) => seq![Op::Control(ControlFlowOp::Call(f))],
        None => Seq::empty(),
    }) + seq![
        Op::Machine(Opcode::MovI(scratch(), MISMATCHED_SELECTOR_REVERT_CODE)),
        Op::Machine(Opcode::Rvrt(scratch())),
    ]
}

/// The whole switch, its words stored from data-section position `base`.
pub open spec fn switch_ops(entries: Seq<AbstractEntry>, base: nat, fallback: Option<Label>) -> Seq<
    Op<AllocatedRegister>,
> {
    switch_head() + cases(entries, base) + switch_tail(fallback)
}

/// Where control goes when a block of code stops.
pub enum Outcome {
    Jump(Label),
    Call(Label),
    Revert(u64),
    /// The code did something outside what the switch uses, or ran off its end.
    Stuck,
}

/// Where a call with selector word `input` goes: the first entry whose selector matches, else
/// the fallback, else a revert with the mismatch code.
pub open spec fn dispatch(entries: Seq<AbstractEntry>, input: u64, fallback: Option<Label>) -> Outcome
    decreases entries.len(),
{
    if entries.len() == 0 {
        match fallback {
            Some(f) => Outcome::Call(f),
            None => Outcome::Revert(MISMATCHED_SELECTOR_REVERT_CODE as u64),
        }
    } else if entries[0].selector.is_some() && selector_word(entries[0].selector.unwrap()) == input {
        Outcome::Jump(entries[0].label)
    } else {
        dispatch(entries.skip(1), input, fallback)
    }
}

pub open spec fn set_reg(
    regs: spec_fn(AllocatedRegister) -> u64,
    r: AllocatedRegister,
    v: u64,
) -> spec_fn(AllocatedRegister) -> u64 {
    |x: AllocatedRegister| if x == r {
        v
    } else {
        regs(x)
    }
}

/// Runs straight-line switch code from position `pc`, with the registers `regs`, the data
/// section `data`, and `input` as the selector word in the call frame.
pub open spec fn run(
    ops: Seq<Op<AllocatedRegister>>,
    pc: int,
    regs: spec_fn(AllocatedRegister) -> u64,
    data: Seq<DataEntry>,
    input: u64,
) -> Outcome
    decreases ops.len() - pc,
{
    if pc < 0 || pc >= ops.len() {
        Outcome::Stuck
    } else {
        match ops[pc] {
            Op::Control(ControlFlowOp::Comment) => run(ops, pc + 1, regs, data, input),
            Op::Control(ControlFlowOp::JumpIfNotZero(r, l)) => if regs(r) != 0 {
                Outcome::Jump(l)
            } else {
                run(ops, pc + 1, regs, data, input)
            },
            Op::Control(ControlFlowOp::Call(l)) => Outcome::Call(l),
            Op::Machine(Opcode::Lw(d, AllocatedRegister::Constant(ConstantRegister::FramePointer), off)) =>
                if off == SELECTOR_WORD_OFFSET {
                run(ops, pc + 1, set_reg(regs, d, input), data, input)
            } else {
                Outcome::Stuck
            },
            Op::Machine(Opcode::LoadDataId(d, id)) => match word_at(data, id) {
                Some(w) => run(ops, pc + 1, set_reg(regs, d, w), data, input),
                None => Outcome::Stuck,
            },
            Op::Machine(Opcode::Eq(d, a, b)) => run(
                ops,
                pc + 1,
                set_reg(
                    regs,
                    d,
                    if regs(a) == regs(b) {
                        1
                    } else {
                        0
                    },
                ),
                data,
                input,
            ),
            Op::Machine(Opcode::MovI(d, v)) => run(ops, pc + 1, set_reg(regs, d, v as u64), data, input),
            Op::Machine(Opcode::Rvrt(r)) => Outcome::Revert(regs(r)),
            _ => Outcome::Stuck,
        }
    }
}

/// Running code placed after `a` is running it on its own.
proof fn lemma_run_shift(
    a: Seq<Op<AllocatedRegister>>,
    b: Seq<Op<AllocatedRegister>>,
    pc: int,
    regs: spec_fn(AllocatedRegister) -> u64,
    data: Seq<DataEntry>,
    input: u64,
)
    requires
        0 <= pc,
    ensures
        run(a + b, a.len() + pc, regs, data, input) == run(b, pc, regs, data, input),
    decreases b.len() - pc,
{
    let ab = a + b;
    if pc < b.len() {
        assert(ab[a.len() + pc] == b[pc]);
        match b[pc] {
            Op::Control(ControlFlowOp::Comment) => {
                lemma_run_shift(a, b, pc + 1, regs, data, input);
            },
            Op::Control(ControlFlowOp::JumpIfNotZero(r, l)) => {
                lemma_run_shift(a, b, pc + 1, regs, data, input);
            },
            Op::Machine(Opcode::Lw(d, _, _)) => {
                lemma_run_shift(a, b, pc + 1, set_reg(regs, d, input), data, input);
            },
            Op::Machine(Opcode::LoadDataId(d, id)) => {
                if let Some(w) = word_at(data, id) {
                    lemma_run_shift(a, b, pc + 1, set_reg(regs, d, w), data, input);
                }
            },
            Op::Machine(Opcode::Eq(d, x, y)) => {
                lemma_run_shift(
                    a,
                    b,
                    pc + 1,
                    set_reg(
                        regs,
                        d,
                        if regs(x) == regs(y) {
                            1
                        } else {
                            0
                        },
                    ),
                    data,
                    input,
                );
            },
            Op::Machine(Opcode::MovI(d, v)) => {
                lemma_run_shift(a, b, pc + 1, set_reg(regs, d, v as u64), data, input);
            },
            _ => {},
        }
    }
}

proof fn lemma_run_tail(
    fallback: Option<Label>,
    regs: spec_fn(AllocatedRegister) -> u64,
    data: Seq<DataEntry>,
    input: u64,
)
    ensures
        run(switch_tail(fallback), 0, regs, data, input) == dispatch(Seq::empty(), input, fallback),
{
    let t = switch_tail(fallback);
    match fallback {
        Some(f) => {
            assert(t[0] == Op::<AllocatedRegister>::Control(ControlFlowOp::Call(f)));
        },
        None => {
            assert(t[0] == Op::<AllocatedRegister>::Machine(
                Opcode::MovI(scratch(), MISMATCHED_SELECTOR_REVERT_CODE),
            ));
            assert(t[1] == Op::<AllocatedRegister>::Machine(Opcode::Rvrt(scratch())));
            let r2 = set_reg(regs, scratch(), MISMATCHED_SELECTOR_REVERT_CODE as u64);
            assert(run(t, 1, r2, data, input) == Outcome::Revert(r2(scratch())));
        },
    }
}

/// Running the cases, the input selector in its register, reaches what `dispatch` says.
proof fn lemma_run_cases(
    entries: Seq<AbstractEntry>,
    base: nat,
    fallback: Option<Label>,
    regs: spec_fn(AllocatedRegister) -> u64,
    data: Seq<DataEntry>,
    input: u64,
)
    requires
        regs(input_reg()) == input,
        base + case_count(entries) <= data.len(),
        base + case_count(entries) <= usize::MAX,
        data.subrange(base as int, (base + case_count(entries)) as int) == selector_words(entries),
    ensures
        run(cases(entries, base) + switch_tail(fallback), 0, regs, data, input) == dispatch(
            entries,
            input,
            fallback,
        ),
    decreases entries.len(),
{
    let t = switch_tail(fallback);
    if entries.len() == 0 {
        assert(cases(entries, base) + t =~= t);
        lemma_run_tail(fallback, regs, data, input);
    } else {
        let e = entries[0];
        let rest = entries.skip(1);
        let c = case_ops(e, base);
        let inc: nat = if e.selector.is_some() {
            1
        } else {
            0
        };
        let all = cases(entries, base) + t;
        assert(all =~= c + (cases(rest, base + inc) + t));
        lemma_words_len(rest);
        match e.selector {
            None => {
                assert(c =~= Seq::<Op<AllocatedRegister>>::empty());
                assert(all =~= cases(rest, base) + t);
                assert(selector_words(entries) =~= selector_words(rest));
                lemma_run_cases(rest, base, fallback, regs, data, input);
            },
            Some(s) => {
                let w = selector_word(s);
                assert(selector_words(entries) =~= seq![DataEntry::Word(w)] + selector_words(rest));
                assert(data.subrange(base as int, (base + case_count(entries)) as int)[0] == DataEntry::Word(w));
                assert(data[base as int] == DataEntry::Word(w));
                assert(base < usize::MAX);
                assert(word_at(data, DataId(base as usize)) == Some(w));
                let r1 = set_reg(regs, case_reg(), w);
                let r2 = set_reg(r1, cmp_reg(), if input == w { 1 } else { 0 });
                assert(all[0] == Op::<AllocatedRegister>::Machine(Opcode::LoadDataId(case_reg(), DataId(base as usize))));
                assert(all[1] == Op::<AllocatedRegister>::Machine(Opcode::Eq(cmp_reg(), input_reg(), case_reg())));
                assert(all[2] == Op::<AllocatedRegister>::Control(ControlFlowOp::JumpIfNotZero(cmp_reg(), e.label)));
                assert(run(all, 0, regs, data, input) == run(all, 1, r1, data, input));
                assert(r1(input_reg()) == input);
                assert(r1(case_reg()) == w);
                assert(run(all, 1, r1, data, input) == run(all, 2, r2, data, input));
                if input != w {
                    assert(r2(cmp_reg()) == 0);
                    assert(r2(input_reg()) == input);
                    assert(run(all, 2, r2, data, input) == run(all, 3, r2, data, input));
                    assert(c.len() == 3);
                    lemma_run_shift(c, cases(rest, base + 1) + t, 0, r2, data, input);
                    assert(data.subrange((base + 1) as int, (base + 1 + case_count(rest)) as int) =~= data.subrange(
                        base as int,
                        (base + case_count(entries)) as int,
                    ).skip(1));
                    assert((seq![DataEntry::Word(w)] + selector_words(rest)).skip(1) =~= selector_words(rest));
                    lemma_run_cases(rest, base + 1, fallback, r2, data, input);
                }
            },
        }
    }
}

pub proof fn lemma_words_len(entries: Seq<AbstractEntry>)
    ensures
        selector_words(entries).len() == case_count(entries),
    decreases entries.len(),
{
    if entries.len() > 0 {
        lemma_words_len(entries.skip(1));
    }
}

/// Running the selector switch with incoming selector word `input` jumps to the first entry
/// whose selector matches, else calls the fallback if there is one, else reverts with the
/// mismatch code. Entries without a selector are never reached.
pub proof fn lemma_switch_dispatches(
    entries: Seq<AbstractEntry>,
    base: nat,
    fallback: Option<Label>,
    regs: spec_fn(AllocatedRegister) -> u64,
    data: Seq<DataEntry>,
    input: u64,
)
    requires
        base + case_count(entries) <= data.len(),
        base + case_count(entries) <= usize::MAX,
        data.subrange(base as int, (base + case_count(entries)) as int) == selector_words(entries),
    ensures
        run(switch_ops(entries, base, fallback), 0, regs, data, input) == dispatch(
            entries,
            input,
            fallback,
        ),
{
    let h = switch_head();
    let ops = switch_ops(entries, base, fallback);
    let rest = cases(entries, base) + switch_tail(fallback);
    assert(ops =~= h + rest);
    assert(ops[0] == Op::<AllocatedRegister>::Control(ControlFlowOp::Comment));
    assert(ops[1] == Op::<AllocatedRegister>::Machine(Opcode::Lw(input_reg(), AllocatedRegister::Constant(ConstantRegister::FramePointer), SELECTOR_WORD_OFFSET)));
    let r1 = set_reg(regs, input_reg(), input);
    assert(run(ops, 0, regs, data, input) == run(ops, 1, regs, data, input));
    assert(run(ops, 1, regs, data, input) == run(ops, 2, r1, data, input));
    lemma_run_shift(h, rest, 0, r1, data, input);
    lemma_run_cases(entries, base, fallback, r1, data, input);
}

/// A matched entry is one that carries a selector: entries without one are never jumped to.
pub proof fn lemma_dispatch_reaches_selector_entries(
    entries: Seq<AbstractEntry>,
    input: u64,
    fallback: Option<Label>,
)
    ensures
        dispatch(entries, input, fallback) is Jump ==> exists|i: int|
            0 <= i < entries.len() && (#[trigger] entries[i]).selector.is_some()
                && selector_word(entries[i].selector.unwrap()) == input
                && dispatch(entries, input, fallback) == Outcome::Jump(entries[i].label)
                && forall|j: int|
                0 <= j < i ==> !(entries[j].selector.is_some() && selector_word(
                    entries[j].selector.unwrap(),
                ) == input),
    decreases entries.len(),
{
    if entries.len() > 0 {
        let e = entries[0];
        if !(e.selector.is_some() && selector_word(e.selector.unwrap()) == input) {
            lemma_dispatch_reaches_selector_entries(entries.skip(1), input, fallback);
            if dispatch(entries, input, fallback) is Jump {
                let i = choose|i: int|
                    0 <= i < entries.skip(1).len() && (#[trigger] entries.skip(1)[i]).selector.is_some()
                        && selector_word(entries.skip(1)[i].selector.unwrap()) == input
                        && dispatch(entries.skip(1), input, fallback) == Outcome::Jump(
                        entries.skip(1)[i].label,
                    ) && forall|j: int|
                        0 <= j < i ==> !(entries.skip(1)[j].selector.is_some() && selector_word(
                            entries.skip(1)[j].selector.unwrap(),
                        ) == input);
                assert(entries[i + 1] == entries.skip(1)[i]);
                assert forall|j: int| 0 <= j < i + 1 implies !(entries[j].selector.is_some()
                    && selector_word(entries[j].selector.unwrap()) == input) by {
                    if j > 0 {
                        assert(entries[j] == entries.skip(1)[j - 1]);
                    }
                }
            }
        } else {
            assert(entries[0] == e);
        }
    }
}

/// Adding an entry at the end adds its block at the end, its word stored after the others.
pub proof fn lemma_cases_push(entries: Seq<AbstractEntry>, e: AbstractEntry, base: nat)
    ensures
        cases(entries.push(e), base) == cases(entries, base) + case_ops(e, base + case_count(entries)),
        selector_words(entries.push(e)) == selector_words(entries) + (match e.selector {
            Some(s) => seq![DataEntry::Word(selector_word(s))],
            None => Seq::empty(),
        }),
        case_count(entries.push(e)) == case_count(entries) + if e.selector.is_some() {
            1nat
        } else {
            0nat
        },
    decreases entries.len(),
{
    let p = entries.push(e);
    if entries.len() == 0 {
        assert(p.skip(1) =~= Seq::<AbstractEntry>::empty());
        assert(p[0] == e);
        let inc: nat = if e.selector.is_some() {
            1
        } else {
            0
        };
        assert(cases(p.skip(1), base + inc) =~= Seq::<Op<AllocatedRegister>>::empty());
        assert(selector_words(p.skip(1)) =~= Seq::<DataEntry>::empty());
        assert(cases(entries, base) =~= Seq::<Op<AllocatedRegister>>::empty());
        assert(selector_words(entries) =~= Seq::<DataEntry>::empty());
        assert(case_count(p.skip(1)) == 0);
        assert(case_count(entries) == 0);
        assert(cases(p, base) =~= case_ops(e, base));
        assert(selector_words(p) =~= selector_words(entries) + (match e.selector {
            Some(s) => seq![DataEntry::Word(selector_word(s))],
            None => Seq::empty(),
        }));
    } else {
        let inc: nat = if entries[0].selector.is_some() {
            1
        } else {
            0
        };
        assert(p.skip(1) =~= entries.skip(1).push(e));
        assert(p[0] == entries[0]);
        lemma_cases_push(entries.skip(1), e, base + inc);
        assert(cases(p, base) =~= cases(entries, base) + case_ops(e, base + case_count(entries)));
        assert(selector_words(p) =~= selector_words(entries) + (match e.selector {
            Some(s) => seq![DataEntry::Word(selector_word(s))],
            None => Seq::empty(),
        }));
    }
}

} // verus!
