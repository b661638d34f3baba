//! The abstract program and its lowering into an allocated program.
use vstd::prelude::*;
use crate::error::CompileError;
use crate::instruction::{
    commented_op, opcodes, op_size, ops_size, AllocatedOp, AllocatedRegister, ConstantRegister,
    ControlFlowOp, Label, Op, Opcode,
};
use crate::dispatch::{
    case_count, case_ops, cases, lemma_cases_push, selector_word, selector_words, switch_head,
    switch_ops, switch_tail,
};
use crate::instruction::{DataId, MISMATCHED_SELECTOR_REVERT_CODE};
use crate::instruction_set::{AbstractInstructionSet, AllocatedInstructionSet};
use crate::sections::{DataEntry, DataSection, GlobalsSection, RegisterSequencer};

verus! {

/// Offset of the metadata block from the start of the program, in bytes.
pub const PRELUDE_METADATA_OFFSET_IN_BYTES: u64 = 16;

/// Size of the metadata block, in bytes.
pub const PRELUDE_METADATA_SIZE_IN_BYTES: u64 = 32;

/// Size of the whole preamble, in bytes.
pub const PRELUDE_SIZE_IN_BYTES: u64 = 56;

/// Word offset, in the call frame, of the selector of a contract call.
pub const SELECTOR_WORD_OFFSET: u32 = 73;

/// The kind of program being compiled.
#[derive(Clone, Copy, Debug, PartialEq, Eq, Structural)]
pub enum ProgramKind {
    Script,
    Predicate,
    Contract,
    Library,
}

/// Experimental features that change code generation.
#[derive(Clone, Copy, Debug, PartialEq, Eq, Structural)]
pub struct ExperimentalFlags {
    /// Contracts dispatch through a single `__entry` function rather than a selector switch.
    pub new_encoding: bool,
}

/// An entry point of an abstract program.
pub struct AbstractEntry {
    /// The 4-byte method selector, absent for entries such as tests.
    pub selector: Option<[u8; 4]>,
    /// The label of the entry's first instruction.
    pub label: Label,
    pub ops: AbstractInstructionSet,
    pub name: String,
    /// The test declaration the entry was generated for, if any.
    pub test_decl_ref: Option<usize>,
}

/// What the lowering keeps of an entry: selector, label, name and test declaration.
pub type EntryInfo = (Option<[u8; 4]>, Label, String, Option<usize>);

/// A program with virtual registers and abstract control flow.
pub struct AbstractProgram {
    pub kind: ProgramKind,
    pub data_section: DataSection,
    pub globals_section: GlobalsSection,
    pub before_entries: AbstractInstructionSet,
    pub entries: Vec<AbstractEntry>,
    pub non_entries: Vec<AbstractInstructionSet>,
    pub reg_seqr: RegisterSequencer,
    pub experimental: ExperimentalFlags,
}

/// A program whose registers are all allocated.
pub struct AllocatedProgram {
    pub kind: ProgramKind,
    pub data_section: DataSection,
    pub prologue: AllocatedInstructionSet,
    pub functions: Vec<AllocatedInstructionSet>,
    pub entries: Vec<EntryInfo>,
}

/// The preamble: metadata between a jump over it and the set-up of the data-section pointer.
pub open spec fn preamble_ops(l: Label) -> Seq<Op<AllocatedRegister>> {
    seq![
        Op::Machine(Opcode::Move(AllocatedRegister::Constant(ConstantRegister::Scratch), AllocatedRegister::Constant(ConstantRegister::ProgramCounter))),
        Op::Control(ControlFlowOp::Jump(l)),
        Op::Control(ControlFlowOp::DataSectionOffsetPlaceholder),
        Op::Control(ControlFlowOp::Metadata),
        Op::Control(ControlFlowOp::Label(l)),
        Op::Machine(Opcode::Lw(AllocatedRegister::Constant(ConstantRegister::DataSectionStart), AllocatedRegister::Constant(ConstantRegister::Scratch), 1)),
        Op::Machine(Opcode::Add(AllocatedRegister::Constant(ConstantRegister::DataSectionStart), AllocatedRegister::Constant(ConstantRegister::DataSectionStart), AllocatedRegister::Constant(ConstantRegister::Scratch))),
    ]
}

/// The preamble is 56 bytes long; its only metadata block is the 32 bytes from offset 16,
/// after the data-offset word at bytes 8 to 16.
pub proof fn lemma_preamble_layout(l: Label)
    ensures
        ops_size(preamble_ops(l)) == PRELUDE_SIZE_IN_BYTES,
        preamble_ops(l)[3] == Op::<AllocatedRegister>::Control(ControlFlowOp::Metadata),
        ops_size(preamble_ops(l).take(3)) == PRELUDE_METADATA_OFFSET_IN_BYTES,
        op_size(preamble_ops(l)[3]) == PRELUDE_METADATA_SIZE_IN_BYTES,
        preamble_ops(l)[2] == Op::<AllocatedRegister>::Control(ControlFlowOp::DataSectionOffsetPlaceholder),
        ops_size(preamble_ops(l).take(2)) == 8,
        forall|k: int|
            0 <= k < preamble_ops(l).len() && k != 3 ==> #[trigger] preamble_ops(l)[k]
                != Op::<AllocatedRegister>::Control(ControlFlowOp::Metadata),
{
    let p = preamble_ops(l);
    reveal_with_fuel(ops_size, 8);
    assert(p.take(3).drop_last() == p.take(2));
    assert(p.take(2).drop_last() == p.take(1));
    assert(p.take(1).drop_last() == p.take(0));
    assert(p.drop_last() == p.take(6));
    assert(p.take(6).drop_last() == p.take(5));
    assert(p.take(5).drop_last() == p.take(4));
    assert(p.take(4).drop_last() == p.take(3));
}

/// The program holds no entry, no other function and no data.
pub open spec fn program_is_empty(
    entries: Seq<AbstractEntry>,
    non_entries: Seq<AbstractInstructionSet>,
    data: Seq<crate::sections::DataEntry>,
) -> bool {
    entries.len() == 0 && non_entries.len() == 0 && data.len() == 0
}

/// A program with no entry, no other function and no data is empty; one entry, one other
/// function or one stored value makes it non-empty.
pub proof fn lemma_emptiness(
    entries: Seq<AbstractEntry>,
    non_entries: Seq<AbstractInstructionSet>,
    data: Seq<crate::sections::DataEntry>,
    e: AbstractEntry,
    f: AbstractInstructionSet,
    v: crate::sections::DataEntry,
)
    ensures
        program_is_empty(Seq::empty(), Seq::empty(), Seq::empty()),
        !program_is_empty(entries.push(e), non_entries, data),
        !program_is_empty(entries, non_entries.push(f), data),
        !program_is_empty(entries, non_entries, data.push(v)),
{
}

impl AbstractProgram {
    pub open spec fn spec_is_empty(&self) -> bool {
        program_is_empty(self.entries@, self.non_entries@, self.data_section.value_pairs@)
    }

    pub fn new(
        kind: ProgramKind,
        data_section: DataSection,
        globals_section: GlobalsSection,
        before_entries: AbstractInstructionSet,
        entries: Vec<AbstractEntry>,
        non_entries: Vec<AbstractInstructionSet>,
        reg_seqr: RegisterSequencer,
        experimental: ExperimentalFlags,
    ) -> (r: Self)
        ensures
            r == (AbstractProgram {
                kind,
                data_section,
                globals_section,
                before_entries,
                entries,
                non_entries,
                reg_seqr,
                experimental,
            }),
    {
        AbstractProgram {
            kind,
            data_section,
            globals_section,
            before_entries,
            entries,
            non_entries,
            reg_seqr,
            experimental,
        }
    }

    /// True if the program holds no entry, no other function and no data.
    pub fn is_empty(&self) -> (r: bool)
        ensures
            r == self.spec_is_empty(),
    {
        self.non_entries.len() == 0 && self.entries.len() == 0 && self.data_section.len() == 0
    }

    /// Builds the preamble, with a fresh label for the end of the metadata block.
    pub fn build_prologue(&mut self) -> (r: AllocatedInstructionSet)
        requires
            old(self).reg_seqr.next_label < usize::MAX,
        ensures
            r.spec_ops() == preamble_ops(Label(old(self).reg_seqr.next_label)),
            final(self).reg_seqr.next_label == old(self).reg_seqr.next_label + 1,
            final(self).reg_seqr.next_register == old(self).reg_seqr.next_register,
            final(self).kind == old(self).kind,
            final(self).data_section == old(self).data_section,
            final(self).globals_section == old(self).globals_section,
            final(self).before_entries == old(self).before_entries,
            final(self).entries == old(self).entries,
            final(self).non_entries == old(self).non_entries,
            final(self).experimental == old(self).experimental,
    {
        let label = self.reg_seqr.get_label();
        let scratch = AllocatedRegister::Constant(ConstantRegister::Scratch);
        let ds = AllocatedRegister::Constant(ConstantRegister::DataSectionStart);
        let mut ops: Vec<AllocatedOp> = Vec::new();
        ops.push(
            commented_op(
                Op::Machine(
                    Opcode::Move(scratch, AllocatedRegister::Constant(ConstantRegister::ProgramCounter)),
                ),
                "",
            ),
        );
        ops.push(commented_op(Op::Control(ControlFlowOp::Jump(label)), ""));
        ops.push(
            commented_op(
                Op::Control(ControlFlowOp::DataSectionOffsetPlaceholder),
                "data section offset",
            ),
        );
        ops.push(commented_op(Op::Control(ControlFlowOp::Metadata), "metadata"));
        ops.push(commented_op(Op::Control(ControlFlowOp::Label(label)), "end of metadata"));
        ops.push(commented_op(Op::Machine(Opcode::Lw(ds, scratch, 1)), ""));
        ops.push(commented_op(Op::Machine(Opcode::Add(ds, ds, scratch)), ""));
        let r = AllocatedInstructionSet { ops };
        assert(r.spec_ops() =~= preamble_ops(label));
        r
    }

    /// Reserves stack space for the globals: one instruction growing the frame by their size.
    pub fn append_globals_allocation(&self, prologue: &mut AllocatedInstructionSet)
        requires
            self.globals_section.wf(),
        ensures
            final(prologue).spec_ops() == old(prologue).spec_ops().push(
                Op::Machine(Opcode::Cfei(self.globals_section.spec_len() as u32)),
            ),
            final(prologue).ops@.drop_last() == old(prologue).ops@,
            final(prologue).ops@.last().comment@ == GLOBALS_COMMENT@,
    {
        let len_in_bytes = self.globals_section.len_in_bytes();
        let ghost before = prologue.ops@;
        prologue.ops.push(
            commented_op(Op::Machine(Opcode::Cfei(len_in_bytes)), GLOBALS_COMMENT),
        );
        assert(opcodes(prologue.ops@) =~= opcodes(before).push(
            Op::Machine(Opcode::Cfei(len_in_bytes)),
        ));
    }

    /// Jumps to the entry named `__entry`, the new-encoding entry point; fails with
    /// `MissingEntry` where there is none.
    pub fn append_jump_to_entry(&self, prologue: &mut AllocatedInstructionSet) -> (r: Result<
        (),
        CompileError,
    >)
        ensures
            r.is_ok() <==> exists|i: int|
                0 <= i < self.entries@.len() && (#[trigger] self.entries@[i]).name@ == entry_symbol(),
            r.is_err() ==> r == Err::<(), CompileError>(CompileError::MissingEntry),
            r.is_err() ==> final(prologue).spec_ops() == old(prologue).spec_ops(),
            r.is_ok() ==> final(prologue).spec_ops() == old(prologue).spec_ops().push(
                Op::Control(ControlFlowOp::Jump(self.entries@[first_entry_named(self.entries@)].label)),
            ),
    {
        let target = ENTRY_SYMBOL.to_owned();
        let mut i: usize = 0;
        while i < self.entries.len()
            invariant
                i <= self.entries@.len(),
                target@ == entry_symbol(),
                prologue.ops@ == old(prologue).ops@,
                forall|j: int| 0 <= j < i ==> (#[trigger] self.entries@[j]).name@ != entry_symbol(),
            decreases self.entries@.len() - i,
        {
            if self.entries[i].name == target {
                proof {
                    lemma_first_entry_named(self.entries@, i as int);
                }
                let ghost before = prologue.ops@;
                prologue.ops.push(
                    commented_op(
                        Op::Control(ControlFlowOp::Jump(self.entries[i].label)),
                        "jump to ABI function selector",
                    ),
                );
                assert(opcodes(prologue.ops@) =~= opcodes(before).push(
                    Op::Control(ControlFlowOp::Jump(self.entries@[i as int].label)),
                ));
                return Ok(());
            }
            i = i + 1;
        }
        Err(CompileError::MissingEntry)
    }

    /// Builds the contract switch on the selector of the incoming call: for each entry with a
    /// selector, in order, its word is stored in the data section and compared with the input,
    /// jumping to the entry on a match; then the fallback is called if there is one, and
    /// finally the call reverts with the mismatch code.
    pub fn append_encoding_v0_contract_abi_switch(
        &mut self,
        prologue: &mut AllocatedInstructionSet,
        fallback_fn: Option<Label>,
    )
        requires
            old(self).data_section.value_pairs@.len() + old(self).entries@.len() <= usize::MAX,
        ensures
            final(prologue).spec_ops() == old(prologue).spec_ops() + switch_ops(
                old(self).entries@,
                old(self).data_section.value_pairs@.len(),
                fallback_fn,
            ),
            final(self).data_section.value_pairs@ == old(self).data_section.value_pairs@
                + selector_words(old(self).entries@),
            final(self).kind == old(self).kind,
            final(self).globals_section == old(self).globals_section,
            final(self).before_entries == old(self).before_entries,
            final(self).entries == old(self).entries,
            final(self).non_entries == old(self).non_entries,
            final(self).reg_seqr == old(self).reg_seqr,
            final(self).experimental == old(self).experimental,
    {
        let ghost ops0 = prologue.spec_ops();
        let ghost data0 = self.data_section.value_pairs@;
        let ghost base = data0.len();
        let input = AllocatedRegister::Allocated(0);
        let prog = AllocatedRegister::Allocated(1);
        let cmp = AllocatedRegister::Allocated(2);
        let scratch = AllocatedRegister::Constant(ConstantRegister::Scratch);
        prologue.ops.push(
            commented_op(
                Op::Control(ControlFlowOp::Comment),
                "[function selection]: begin contract function selector switch",
            ),
        );
        prologue.ops.push(
            commented_op(
                Op::Machine(
                    Opcode::Lw(
                        input,
                        AllocatedRegister::Constant(ConstantRegister::FramePointer),
                        SELECTOR_WORD_OFFSET,
                    ),
                ),
                "[function selection]: load input function selector",
            ),
        );
        assert(prologue.spec_ops() =~= ops0 + switch_head() + cases(self.entries@.take(0), base));
        assert(self.data_section.value_pairs@ =~= data0 + selector_words(self.entries@.take(0)));
        let mut i: usize = 0;
        while i < self.entries.len()
            invariant
                i <= self.entries@.len(),
                base == data0.len(),
                base + self.entries@.len() <= usize::MAX,
                prologue.spec_ops() == ops0 + switch_head() + cases(self.entries@.take(i as int), base),
                self.data_section.value_pairs@ == data0 + selector_words(self.entries@.take(i as int)),
                self.entries == old(self).entries,
                self.kind == old(self).kind,
                self.globals_section == old(self).globals_section,
                self.before_entries == old(self).before_entries,
                self.non_entries == old(self).non_entries,
                self.reg_seqr == old(self).reg_seqr,
                self.experimental == old(self).experimental,
                data0 == old(self).data_section.value_pairs@,
                ops0 == old(prologue).spec_ops(),
                input == AllocatedRegister::Allocated(0),
                prog == AllocatedRegister::Allocated(1),
                cmp == AllocatedRegister::Allocated(2),
            decreases self.entries@.len() - i,
        {
            let ghost pre = self.entries@.take(i as int);
            proof {
                lemma_cases_push(pre, self.entries@[i as int], base);
                assert(self.entries@.take(i + 1) == pre.push(self.entries@[i as int]));
                crate::dispatch::lemma_words_len(pre);
            }
            match self.entries[i].selector {
                Some(sel) => {
                    let word: u64 = sel[0] as u64 * 0x100_0000 + sel[1] as u64 * 0x1_0000
                        + sel[2] as u64 * 0x100 + sel[3] as u64;
                    assert(word == selector_word(sel));
                    let data_label = self.data_section.insert_data_value(DataEntry::Word(word));
                    let ghost before = prologue.spec_ops();
                    prologue.ops.push(
                        commented_op(
                            Op::Machine(Opcode::LoadDataId(prog, data_label)),
                            "[function selection]: load function selector for comparison",
                        ),
                    );
                    prologue.ops.push(
                        commented_op(
                            Op::Machine(Opcode::Eq(cmp, input, prog)),
                            "[function selection]: compare function selector with input selector",
                        ),
                    );
                    prologue.ops.push(
                        commented_op(
                            Op::Control(ControlFlowOp::JumpIfNotZero(cmp, self.entries[i].label)),
                            "[function selection]: jump to selected contract function",
                        ),
                    );
                    assert(data_label == DataId((base + case_count(pre)) as usize));
                    assert(prologue.spec_ops() =~= before + case_ops(
                        self.entries@[i as int],
                        base + case_count(pre),
                    ));
                },
                None => {
                    assert(case_ops(self.entries@[i as int], base + case_count(pre)) =~= Seq::<
                        Op<AllocatedRegister>,
                    >::empty());
                },
            }
            i = i + 1;
            assert(prologue.spec_ops() =~= ops0 + switch_head() + cases(self.entries@.take(i as int), base));
            assert(self.data_section.value_pairs@ =~= data0 + selector_words(self.entries@.take(i as int)));
        }
        assert(self.entries@.take(i as int) == self.entries@);
        let ghost mid = prologue.spec_ops();
        match fallback_fn {
            Some(f) => {
                prologue.ops.push(
                    commented_op(
                        Op::Control(ControlFlowOp::Call(f)),
                        "[function selection]: call contract fallback function",
                    ),
                );
            },
            None => {},
        }
        prologue.ops.push(
            commented_op(
                Op::Machine(Opcode::MovI(scratch, MISMATCHED_SELECTOR_REVERT_CODE)),
                "[function selection]: load revert code for mismatched function selector",
            ),
        );
        prologue.ops.push(
            commented_op(
                Op::Machine(Opcode::Rvrt(scratch)),
                "[function selection]: revert if no selectors have matched",
            ),
        );
        assert(prologue.spec_ops() =~= mid + switch_tail(fallback_fn));
        assert(prologue.spec_ops() =~= ops0 + switch_ops(self.entries@, base, fallback_fn));
    }
}

/// Comment of the instruction that reserves the globals.
pub const GLOBALS_COMMENT: &'static str = "allocate stack space for globals";

/// Name of the entry point that new-encoding contracts jump to.
pub const ENTRY_SYMBOL: &'static str = "__entry";

pub open spec fn entry_symbol() -> Seq<char> {
    ENTRY_SYMBOL@
}

/// Position of the first entry named `__entry`.
pub open spec fn first_entry_named(entries: Seq<AbstractEntry>) -> int
    decreases entries.len(),
{
    if entries.len() == 0 {
        0
    } else if entries[0].name@ == entry_symbol() {
        0
    } else {
        1 + first_entry_named(entries.skip(1))
    }
}

proof fn lemma_first_entry_named(entries: Seq<AbstractEntry>, i: int)
    requires
        0 <= i < entries.len(),
        entries[i].name@ == entry_symbol(),
        forall|j: int| 0 <= j < i ==> (#[trigger] entries[j]).name@ != entry_symbol(),
    ensures
        first_entry_named(entries) == i,
    decreases i,
{
    if i > 0 {
        assert(entries[0].name@ != entry_symbol());
        assert forall|j: int| 0 <= j < i - 1 implies (#[trigger] entries.skip(1)[j]).name@
            != entry_symbol() by {
            assert(entries.skip(1)[j] == entries[j + 1]);
        }
        lemma_first_entry_named(entries.skip(1), i - 1);
    }
}

} // verus!
