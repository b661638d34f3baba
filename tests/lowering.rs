use sway_core::error::CompileError;
use sway_core::instruction::{
    plain_op, AbstractOp, AllocatedRegister, ConstantRegister, ControlFlowOp, DataId, Label, Op,
    Opcode, VirtualRegister, MISMATCHED_SELECTOR_REVERT_CODE,
};
use sway_core::instruction_set::{AbstractInstructionSet, AllocatedInstructionSet};
use sway_core::program::{
    AbstractEntry, AbstractProgram, ExperimentalFlags, ProgramKind, PRELUDE_METADATA_OFFSET_IN_BYTES,
    PRELUDE_METADATA_SIZE_IN_BYTES, PRELUDE_SIZE_IN_BYTES,
};
use sway_core::sections::{DataEntry, DataSection, GlobalsSection, RegisterSequencer};

type A = AllocatedRegister;

fn v(n: u64) -> VirtualRegister {
    VirtualRegister::Virtual(n)
}

fn a(n: u8) -> A {
    A::Allocated(n)
}

fn scratch() -> A {
    A::Constant(ConstantRegister::Scratch)
}

fn set(ops: Vec<Op<VirtualRegister>>) -> AbstractInstructionSet {
    AbstractInstructionSet { ops: ops.into_iter().map(plain_op).collect::<Vec<AbstractOp>>() }
}

fn entry_body(label: Label) -> AbstractInstructionSet {
    set(vec![
        Op::Control(ControlFlowOp::Label(label)),
        Op::Machine(Opcode::MovI(v(0), 5)),
        Op::Machine(Opcode::Ret(v(0))),
    ])
}

fn entry(selector: Option<[u8; 4]>, label: usize, name: &str) -> AbstractEntry {
    AbstractEntry {
        selector,
        label: Label(label),
        ops: entry_body(Label(label)),
        name: name.to_string(),
        test_decl_ref: None,
    }
}

fn program(kind: ProgramKind, new_encoding: bool, entries: Vec<AbstractEntry>) -> AbstractProgram {
    AbstractProgram::new(
        kind,
        DataSection::new(),
        GlobalsSection::new(0).unwrap(),
        set(vec![]),
        entries,
        vec![],
        RegisterSequencer { next_label: 100, next_register: 0 },
        ExperimentalFlags { new_encoding },
    )
}

fn size(op: &Op<A>) -> u64 {
    match op {
        Op::Machine(_) => 4,
        Op::Control(ControlFlowOp::Jump(_))
        | Op::Control(ControlFlowOp::JumpIfNotZero(_, _))
        | Op::Control(ControlFlowOp::Call(_)) => 4,
        Op::Control(ControlFlowOp::Metadata) => 32,
        Op::Control(ControlFlowOp::DataSectionOffsetPlaceholder) => 8,
        Op::Control(_) => 0,
    }
}

fn opcodes(s: &AllocatedInstructionSet) -> Vec<Op<A>> {
    s.ops.iter().map(|o| o.opcode).collect()
}

#[test]
fn empty_program_is_empty() {
    let p = program(ProgramKind::Script, false, vec![]);
    assert!(p.is_empty());
}

#[test]
fn program_with_entry_is_not_empty() {
    let p = program(ProgramKind::Script, false, vec![entry(None, 1, "main")]);
    assert!(!p.is_empty());
}

#[test]
fn program_with_function_is_not_empty() {
    let mut p = program(ProgramKind::Script, false, vec![]);
    p.non_entries.push(set(vec![]));
    assert!(!p.is_empty());
}

#[test]
fn program_with_data_is_not_empty() {
    let mut p = program(ProgramKind::Script, false, vec![]);
    p.data_section.insert_data_value(DataEntry::Word(7));
    assert!(!p.is_empty());
}

#[test]
fn preamble_is_56_bytes_with_metadata_at_16() {
    let mut p = program(ProgramKind::Script, false, vec![]);
    let pro = p.build_prologue();
    let ops = opcodes(&pro);
    assert_eq!(ops.len(), 7);
    let total: u64 = ops.iter().map(size).sum();
    assert_eq!(total, PRELUDE_SIZE_IN_BYTES);
    let before_metadata: u64 = ops[..3].iter().map(size).sum();
    assert_eq!(before_metadata, PRELUDE_METADATA_OFFSET_IN_BYTES);
    assert_eq!(ops[3], Op::Control(ControlFlowOp::Metadata));
    assert_eq!(size(&ops[3]), PRELUDE_METADATA_SIZE_IN_BYTES);
    assert_eq!(ops[1], Op::Control(ControlFlowOp::Jump(Label(100))));
    assert_eq!(ops[4], Op::Control(ControlFlowOp::Label(Label(100))));
    assert_eq!(p.reg_seqr.next_label, 101);
}

#[test]
fn two_entry_contract_end_to_end() {
    let p = program(
        ProgramKind::Contract,
        false,
        vec![entry(Some([0, 0, 0, 1]), 1, "first"), entry(Some([0, 0, 0, 2]), 2, "second")],
    );
    let q = p.into_allocated_program(None).unwrap();
    let ops = opcodes(&q.prologue);
    let fp = A::Constant(ConstantRegister::FramePointer);
    let expected_tail = vec![
        Op::Machine(Opcode::Cfei(0)),
        Op::Control(ControlFlowOp::Comment),
        Op::Machine(Opcode::Lw(a(0), fp, 73)),
        Op::Machine(Opcode::LoadDataId(a(1), DataId(0))),
        Op::Machine(Opcode::Eq(a(2), a(0), a(1))),
        Op::Control(ControlFlowOp::JumpIfNotZero(a(2), Label(1))),
        Op::Machine(Opcode::LoadDataId(a(1), DataId(1))),
        Op::Machine(Opcode::Eq(a(2), a(0), a(1))),
        Op::Control(ControlFlowOp::JumpIfNotZero(a(2), Label(2))),
        Op::Machine(Opcode::MovI(scratch(), MISMATCHED_SELECTOR_REVERT_CODE)),
        Op::Machine(Opcode::Rvrt(scratch())),
    ];
    assert_eq!(ops[7..].to_vec(), expected_tail);
    assert!(!ops.iter().any(|o| matches!(o, Op::Control(ControlFlowOp::Call(_)))));
    let words: Vec<u64> = q
        .data_section
        .value_pairs
        .iter()
        .map(|e| match e {
            DataEntry::Word(w) => *w,
            DataEntry::Bytes(_) => panic!("unexpected bytes"),
        })
        .collect();
    assert_eq!(words, vec![1, 2]);
    assert_eq!(q.functions.len(), 2);
    assert_eq!(q.entries.len(), 2);
    assert_eq!(q.entries[0].1, Label(1));
    assert_eq!(q.entries[1].2, "second");
}

#[test]
fn switch_calls_fallback_and_skips_entries_without_selector() {
    let p = program(
        ProgramKind::Contract,
        false,
        vec![entry(None, 1, "test_only"), entry(Some([0x12, 0x34, 0x56, 0x78]), 2, "f")],
    );
    let mut p = p;
    p.non_entries.push(entry_body(Label(50)));
    let q = p.into_allocated_program(Some(Label(50))).unwrap();
    let ops = opcodes(&q.prologue);
    let jumps: Vec<Label> = ops
        .iter()
        .filter_map(|o| match o {
            Op::Control(ControlFlowOp::JumpIfNotZero(_, l)) => Some(*l),
            _ => None,
        })
        .collect();
    assert_eq!(jumps, vec![Label(2)]);
    let n = ops.len();
    assert_eq!(ops[n - 3], Op::Control(ControlFlowOp::Call(Label(50))));
    assert_eq!(ops[n - 1], Op::Machine(Opcode::Rvrt(scratch())));
    match &q.data_section.value_pairs[0] {
        DataEntry::Word(w) => assert_eq!(*w, 0x1234_5678),
        DataEntry::Bytes(_) => panic!("unexpected bytes"),
    }
}

#[test]
fn new_encoding_jumps_to_entry() {
    let mut e = entry(None, 9, "__entry");
    e.ops = entry_body(Label(9));
    let p = program(ProgramKind::Contract, true, vec![entry(Some([0, 0, 0, 1]), 1, "other"), e]);
    let q = p.into_allocated_program(None).unwrap();
    let ops = opcodes(&q.prologue);
    assert_eq!(ops.len(), 9);
    assert_eq!(ops[8], Op::Control(ControlFlowOp::Jump(Label(9))));
    assert!(!ops.iter().any(|o| matches!(o, Op::Machine(Opcode::Eq(_, _, _)))));
    assert!(q.data_section.value_pairs.is_empty());
}

#[test]
fn new_encoding_without_entry_fails() {
    let p = program(ProgramKind::Contract, true, vec![entry(None, 1, "main")]);
    assert_eq!(p.into_allocated_program(None).err(), Some(CompileError::MissingEntry));
}

#[test]
fn script_has_no_dispatch() {
    let p = program(ProgramKind::Script, false, vec![entry(None, 1, "main")]);
    let q = p.into_allocated_program(None).unwrap();
    assert_eq!(q.prologue.ops.len(), 8);
    assert_eq!(q.kind, ProgramKind::Script);
}

#[test]
fn dangling_jump_fails_lowering() {
    let mut e = entry(None, 1, "main");
    e.ops = set(vec![
        Op::Control(ControlFlowOp::Label(Label(1))),
        Op::Control(ControlFlowOp::Jump(Label(77))),
    ]);
    let p = program(ProgramKind::Script, false, vec![e]);
    assert_eq!(p.into_allocated_program(None).err(), Some(CompileError::UnresolvedLabel(Label(77))));
}

#[test]
fn too_many_registers_fails_lowering() {
    let mut ops = vec![Op::Control(ControlFlowOp::Label(Label(1)))];
    for i in 0..49 {
        ops.push(Op::Machine(Opcode::MovI(v(i), 1)));
    }
    for i in 0..49 {
        ops.push(Op::Machine(Opcode::Ret(v(i))));
    }
    let mut e = entry(None, 1, "main");
    e.ops = set(ops);
    let p = program(ProgramKind::Script, false, vec![e]);
    assert_eq!(p.into_allocated_program(None).err(), Some(CompileError::TooManyRegisters(48)));
}

#[test]
fn many_short_lived_registers_lower() {
    let mut ops = vec![Op::Control(ControlFlowOp::Label(Label(1)))];
    for i in 0..60 {
        ops.push(Op::Machine(Opcode::MovI(v(i), 1)));
        ops.push(Op::Machine(Opcode::Ret(v(i))));
    }
    let mut e = entry(None, 1, "main");
    e.ops = set(ops);
    let p = program(ProgramKind::Script, false, vec![e]);
    let q = p.into_allocated_program(None).unwrap();
    assert_eq!(q.functions[0].ops.len(), 121);
    assert_eq!(q.functions[0].registers_in_use(), 1);
}

#[test]
fn undefined_fallback_fails_lowering() {
    let p = program(ProgramKind::Contract, false, vec![entry(Some([0, 0, 0, 1]), 1, "f")]);
    assert_eq!(p.into_allocated_program(Some(Label(50))).err(), Some(CompileError::UnresolvedLabel(Label(50))));
}

#[test]
fn functions_keep_their_order_and_saves() {
    let mut p = program(ProgramKind::Script, false, vec![entry(None, 1, "main")]);
    p.non_entries.push(set(vec![
        Op::Control(ControlFlowOp::Label(Label(2))),
        Op::Control(ControlFlowOp::PushAll(Label(2))),
        Op::Machine(Opcode::MovI(v(3), 1)),
        Op::Machine(Opcode::MovI(v(4), 2)),
        Op::Machine(Opcode::Add(v(3), v(3), v(4))),
        Op::Control(ControlFlowOp::PopAll(Label(2))),
        Op::Machine(Opcode::Ret(v(3))),
    ]));
    let q = p.into_allocated_program(None).unwrap();
    assert_eq!(q.functions.len(), 2);
    let f = opcodes(&q.functions[1]);
    assert_eq!(f.len(), 7);
    assert_eq!(f[1], Op::Machine(Opcode::PushRegs(2)));
    assert_eq!(f[4], Op::Machine(Opcode::Add(a(0), a(0), a(1))));
    assert_eq!(f[5], Op::Machine(Opcode::PopRegs(2)));
}

#[test]
fn globals_reserved_after_preamble() {
    let mut p = program(ProgramKind::Script, false, vec![]);
    p.globals_section = GlobalsSection::new(24).unwrap();
    let q = p.into_allocated_program(None).unwrap();
    assert_eq!(q.prologue.ops[7].opcode, Op::Machine(Opcode::Cfei(24)));
}

#[test]
fn before_entries_are_spliced_into_prologue() {
    let mut p = program(ProgramKind::Script, false, vec![]);
    p.before_entries = set(vec![Op::Machine(Opcode::MovI(v(8), 3)), Op::Machine(Opcode::Sw(v(8), v(8), 0))]);
    let q = p.into_allocated_program(None).unwrap();
    let ops = opcodes(&q.prologue);
    assert_eq!(ops[8], Op::Machine(Opcode::MovI(a(0), 3)));
    assert_eq!(ops[9], Op::Machine(Opcode::Sw(a(0), a(0), 0)));
}
