use sway_core::error::CompileError;
use sway_core::instruction::{
    plain_op, AbstractOp, AllocatedRegister, ControlFlowOp, DataId, Label, Op, Opcode,
    VirtualRegister,
};
use sway_core::instruction_set::AbstractInstructionSet;
use sway_core::sections::{DataEntry, DataSection, GlobalsSection, RegisterSequencer};

fn v(n: u64) -> VirtualRegister {
    VirtualRegister::Virtual(n)
}

fn set(ops: Vec<Op<VirtualRegister>>) -> AbstractInstructionSet {
    AbstractInstructionSet { ops: ops.into_iter().map(plain_op).collect::<Vec<AbstractOp>>() }
}

fn ops_of(s: &AbstractInstructionSet) -> Vec<Op<VirtualRegister>> {
    s.ops.iter().map(|o| o.opcode).collect()
}

#[test]
fn optimize_drops_self_moves() {
    let s = set(vec![
        Op::Machine(Opcode::MovI(v(1), 4)),
        Op::Machine(Opcode::Move(v(1), v(1))),
        Op::Machine(Opcode::Move(v(2), v(1))),
    ]);
    let o = s.optimize(&DataSection::new());
    assert_eq!(
        ops_of(&o),
        vec![Op::Machine(Opcode::MovI(v(1), 4)), Op::Machine(Opcode::Move(v(2), v(1)))]
    );
}

#[test]
fn optimize_folds_small_data_words() {
    let mut d = DataSection::new();
    let small = d.insert_data_value(DataEntry::Word(42));
    let big = d.insert_data_value(DataEntry::Word(1 << 20));
    let bytes = d.insert_data_value(DataEntry::Bytes(vec![1, 2]));
    assert_eq!((small, big, bytes), (DataId(0), DataId(1), DataId(2)));
    let s = set(vec![
        Op::Machine(Opcode::LoadDataId(v(1), small)),
        Op::Machine(Opcode::LoadDataId(v(2), big)),
        Op::Machine(Opcode::LoadDataId(v(3), bytes)),
    ]);
    let o = s.optimize(&d);
    assert_eq!(
        ops_of(&o),
        vec![
            Op::Machine(Opcode::MovI(v(1), 42)),
            Op::Machine(Opcode::LoadDataId(v(2), big)),
            Op::Machine(Opcode::LoadDataId(v(3), bytes)),
        ]
    );
}

#[test]
fn optimize_twice_changes_nothing() {
    let mut d = DataSection::new();
    let id = d.insert_data_value(DataEntry::Word(3));
    let s = set(vec![
        Op::Machine(Opcode::LoadDataId(v(1), id)),
        Op::Machine(Opcode::Move(v(1), v(1))),
        Op::Control(ControlFlowOp::Comment),
    ]);
    let once = s.optimize(&d);
    let twice = once.optimize(&d);
    assert_eq!(ops_of(&once), ops_of(&twice));
    assert_eq!(once.ops.len(), 2);
}

#[test]
fn verify_accepts_resolved_labels() {
    let s = set(vec![
        Op::Control(ControlFlowOp::Label(Label(1))),
        Op::Machine(Opcode::MovI(v(1), 0)),
        Op::Control(ControlFlowOp::JumpIfNotZero(v(1), Label(1))),
        Op::Control(ControlFlowOp::Call(Label(2))),
    ]);
    assert!(s.verify(&vec![Label(1), Label(2)]).is_ok());
}

#[test]
fn verify_rejects_dangling_label() {
    let s = set(vec![Op::Control(ControlFlowOp::Jump(Label(5)))]);
    assert_eq!(s.verify(&vec![Label(1)]).err().map(|_| ()), Some(()));
    let s = set(vec![Op::Control(ControlFlowOp::Jump(Label(5)))]);
    match s.verify(&vec![Label(1)]) {
        Err(e) => assert_eq!(e, CompileError::UnresolvedLabel(Label(5))),
        Ok(_) => panic!("dangling label accepted"),
    }
}

#[test]
fn verify_rejects_label_defined_twice() {
    let s = set(vec![Op::Control(ControlFlowOp::Jump(Label(5)))]);
    match s.verify(&vec![Label(5), Label(5)]) {
        Err(e) => assert_eq!(e, CompileError::UnresolvedLabel(Label(5))),
        Ok(_) => panic!("duplicate label accepted"),
    }
}

#[test]
fn verify_rejects_undefined_register() {
    let s = set(vec![Op::Machine(Opcode::Ret(v(9)))]);
    match s.verify(&vec![]) {
        Err(e) => assert_eq!(e, CompileError::UndefinedRegister(9)),
        Ok(_) => panic!("undefined register accepted"),
    }
}

#[test]
fn allocation_gives_distinct_registers() {
    let s = set(vec![
        Op::Machine(Opcode::MovI(v(10), 1)),
        Op::Machine(Opcode::MovI(v(20), 2)),
        Op::Machine(Opcode::Add(v(30), v(10), v(20))),
        Op::Machine(Opcode::Ret(v(30))),
    ]);
    let a = s.allocate_registers().unwrap();
    assert_eq!(a.ops.len(), s.ops.len());
    let r = |n: u8| AllocatedRegister::Allocated(n);
    assert_eq!(a.ops[0].opcode, Op::Machine(Opcode::MovI(r(0), 1)));
    assert_eq!(a.ops[1].opcode, Op::Machine(Opcode::MovI(r(1), 2)));
    assert_eq!(a.ops[2].opcode, Op::Machine(Opcode::Add(r(2), r(0), r(1))));
    assert_eq!(a.ops[3].opcode, Op::Machine(Opcode::Ret(r(2))));
}

#[test]
fn allocation_fits_exactly_48_live_registers() {
    let mut ops: Vec<Op<VirtualRegister>> = (0..48).map(|i| Op::Machine(Opcode::MovI(v(i), 1))).collect();
    ops.extend((0..48).map(|i| Op::Machine(Opcode::Ret(v(i)))));
    let a = set(ops).allocate_registers().unwrap();
    assert_eq!(a.registers_in_use(), 48);
}

#[test]
fn allocation_rejects_49_live_registers() {
    let mut ops: Vec<Op<VirtualRegister>> = (0..49).map(|i| Op::Machine(Opcode::MovI(v(i), 1))).collect();
    ops.extend((0..49).map(|i| Op::Machine(Opcode::Ret(v(i)))));
    match set(ops).allocate_registers() {
        Err(e) => assert_eq!(e, CompileError::TooManyRegisters(48)),
        Ok(_) => panic!("pool overflow accepted"),
    }
}

#[test]
fn allocation_shares_a_register_among_unread_temporaries() {
    // Never read, so at most one of them is live at a time: they share one register.
    let ops: Vec<Op<VirtualRegister>> = (0..49).map(|i| Op::Machine(Opcode::MovI(v(i), 1))).collect();
    let a = set(ops).allocate_registers().unwrap();
    assert_eq!(a.registers_in_use(), 1);
    assert_eq!(a.ops.len(), 49);
}

#[test]
fn allocation_reuses_registers_of_ended_ranges() {
    let s = set(vec![
        Op::Machine(Opcode::MovI(v(1), 1)),
        Op::Machine(Opcode::Ret(v(1))),
        Op::Machine(Opcode::MovI(v(2), 2)),
        Op::Machine(Opcode::Ret(v(2))),
    ]);
    let a = s.allocate_registers().unwrap();
    let r0 = AllocatedRegister::Allocated(0);
    assert_eq!(a.ops[2].opcode, Op::Machine(Opcode::MovI(r0, 2)));
    assert_eq!(a.ops[3].opcode, Op::Machine(Opcode::Ret(r0)));
}

#[test]
fn allocation_keeps_loop_registers_apart() {
    // v1 is last mentioned inside the loop, v2 after it; the back jump keeps both live over
    // the whole loop, so they may not share a register.
    let s = set(vec![
        Op::Machine(Opcode::MovI(v(1), 1)),
        Op::Control(ControlFlowOp::Label(Label(7))),
        Op::Machine(Opcode::Move(v(3), v(1))),
        Op::Machine(Opcode::MovI(v(2), 0)),
        Op::Control(ControlFlowOp::JumpIfNotZero(v(2), Label(7))),
    ]);
    let a = s.allocate_registers().unwrap();
    let reg_of = |i: usize, k: usize| match a.ops[i].opcode {
        Op::Machine(Opcode::Move(d, s)) => if k == 0 { d } else { s },
        Op::Machine(Opcode::MovI(d, _)) => d,
        _ => panic!("unexpected op"),
    };
    assert_ne!(reg_of(2, 1), reg_of(3, 0));
    assert_ne!(reg_of(2, 1), reg_of(2, 0));
}

#[test]
fn sequencer_issues_fresh_labels() {
    let mut s = RegisterSequencer::new();
    assert_eq!(s.get_label(), Label(0));
    assert_eq!(s.get_label(), Label(1));
    assert_eq!(s.next(), 0);
    assert_eq!(s.next(), 1);
}

#[test]
fn data_section_appends_without_dedup() {
    let mut d = DataSection::new();
    assert_eq!(d.insert_data_value(DataEntry::Word(5)), DataId(0));
    assert_eq!(d.insert_data_value(DataEntry::Word(5)), DataId(1));
    assert_eq!(d.len(), 2);
    assert_eq!(d.get_word(DataId(1)), Some(5));
    assert_eq!(d.get_word(DataId(2)), None);
}

#[test]
fn globals_section_must_fit_24_bits() {
    assert!(GlobalsSection::new(0xff_ffff).is_some());
    assert!(GlobalsSection::new(0x100_0000).is_none());
    assert_eq!(GlobalsSection::new(40).unwrap().len_in_bytes(), 40);
}
