//! The lowering driver: from an abstract program to an allocated program.
use vstd::prelude::*;
use crate::allocate::{crowded, is_allocation, saved};
use crate::dispatch::{
    case_count, dispatch, lemma_switch_dispatches, lemma_words_len, run, selector_words, switch_ops,
};
use crate::error::CompileError;
use crate::instruction::{
    opcodes, target_of, AllocatedOp, AllocatedRegister, ControlFlowOp, Instruction, Label, Op, Opcode,
    VirtualRegister,
};
use crate::instruction_set::{
    count_label, count_of, labels_resolved, verify_error, well_formed_set, AbstractInstructionSet,
    AllocatedInstructionSet,
};
use crate::optimize::{lemma_optimize_len, optimized, redundant_count};
use crate::program::{
    entry_symbol, first_entry_named, preamble_ops, AbstractEntry, AbstractProgram,
    AllocatedProgram, EntryInfo, ProgramKind,
};
use crate::sections::DataEntry;

verus! {

/// The labels that the operations define, in order.
pub open spec fn label_defs<R>(ops: Seq<Op<R>>) -> Seq<Label>
    decreases ops.len(),
{
    if ops.len() == 0 {
        Seq::empty()
    } else {
        match ops.last() {
            Op::Control(ControlFlowOp::Label(l)) => label_defs(ops.drop_last()).push(l),
            _ => label_defs(ops.drop_last()),
        }
    }
}

/// The labels that the entries' bodies define, in order.
pub open spec fn entries_label_defs(entries: Seq<AbstractEntry>) -> Seq<Label>
    decreases entries.len(),
{
    if entries.len() == 0 {
        Seq::empty()
    } else {
        entries_label_defs(entries.drop_last()) + label_defs(entries.last().ops.spec_ops())
    }
}

/// The labels that the functions define, in order.
pub open spec fn sets_label_defs(sets: Seq<AbstractInstructionSet>) -> Seq<Label>
    decreases sets.len(),
{
    if sets.len() == 0 {
        Seq::empty()
    } else {
        sets_label_defs(sets.drop_last()) + label_defs(sets.last().spec_ops())
    }
}

/// Every label the lowered program defines: the preamble's, then those of the code run before
/// the entries, of the entries and of the other functions.
pub open spec fn program_labels(p: AbstractProgram, preamble_label: Label) -> Seq<Label> {
    seq![preamble_label] + label_defs(p.before_entries.spec_ops()) + entries_label_defs(p.entries@)
        + sets_label_defs(p.non_entries@)
}

/// Number of functions: entries first, then the others.
pub open spec fn function_count(p: AbstractProgram) -> nat {
    p.entries@.len() + p.non_entries@.len()
}

/// The body of function `i`, entries first.
pub open spec fn body_ops(p: AbstractProgram, i: int) -> Seq<Op<VirtualRegister>> {
    if i < p.entries@.len() {
        p.entries@[i].ops.spec_ops()
    } else {
        p.non_entries@[i - p.entries@.len()].spec_ops()
    }
}

/// The program dispatches through the selector switch.
pub open spec fn uses_switch(p: AbstractProgram) -> bool {
    p.kind == ProgramKind::Contract && !p.experimental.new_encoding
}

/// The program dispatches through a jump to its `__entry` function.
pub open spec fn uses_entry_jump(p: AbstractProgram) -> bool {
    p.kind == ProgramKind::Contract && p.experimental.new_encoding
}

pub open spec fn has_entry_symbol(p: AbstractProgram) -> bool {
    exists|i: int| 0 <= i < p.entries@.len() && (#[trigger] p.entries@[i]).name@ == entry_symbol()
}

/// The data section once the switch has stored its selector words.
pub open spec fn final_data(p: AbstractProgram) -> Seq<DataEntry> {
    if uses_switch(p) {
        p.data_section.value_pairs@ + selector_words(p.entries@)
    } else {
        p.data_section.value_pairs@
    }
}

/// The code that sends a call to its entry.
pub open spec fn dispatch_code(p: AbstractProgram, fallback: Option<Label>) -> Seq<Op<AllocatedRegister>> {
    if uses_switch(p) {
        switch_ops(p.entries@, p.data_section.value_pairs@.len(), fallback)
    } else if uses_entry_jump(p) {
        seq![Op::Control(ControlFlowOp::Jump(p.entries@[first_entry_named(p.entries@)].label))]
    } else {
        Seq::empty()
    }
}

/// The code run before the entries, after the peephole pass.
pub open spec fn before_ops(p: AbstractProgram) -> Seq<Op<VirtualRegister>> {
    optimized(p.before_entries.spec_ops(), p.data_section.value_pairs@)
}

/// Function `i`, after the peephole pass against the final data section.
pub open spec fn function_ops(p: AbstractProgram, i: int) -> Seq<Op<VirtualRegister>> {
    optimized(body_ops(p, i), final_data(p))
}

/// The error names a target of `ops` that `labels` does not define exactly once.
pub open spec fn target_error<R>(ops: Seq<Op<R>>, labels: Seq<Label>, e: CompileError) -> bool {
    match e {
        CompileError::UnresolvedLabel(l) => exists|i: int|
            0 <= i < ops.len() && #[trigger] target_of(ops[i]) == Some(l) && count_of(labels, l) != 1,
        _ => false,
    }
}

/// The error names a register of `ops` that interferes with a whole pool's worth of others.
pub open spec fn alloc_error(ops: Seq<Op<VirtualRegister>>, e: CompileError) -> bool {
    match e {
        CompileError::TooManyRegisters(v) => crowded(ops, v),
        _ => false,
    }
}

/// The pre-entry code verifies, a new-encoding contract has an `__entry` function.
pub open spec fn prefix_ok(p: AbstractProgram, labels: Seq<Label>) -> bool {
    well_formed_set(before_ops(p), labels) && (uses_entry_jump(p) ==> has_entry_symbol(p))
}

/// Every verification step passes: the pre-entry code, the `__entry` lookup, the targets of
/// the dispatch code, and every function.
pub open spec fn verification_succeeds(p: AbstractProgram, labels: Seq<Label>, fallback: Option<Label>) -> bool {
    &&& prefix_ok(p, labels)
    &&& labels_resolved(dispatch_code(p, fallback), labels)
    &&& forall|i: int| 0 <= i < function_count(p) ==> well_formed_set(#[trigger] function_ops(p, i), labels)
}

/// The error of the first step that fails, in the order of the lowering: verifying then
/// allocating the pre-entry code, finding `__entry`, resolving the dispatch targets, verifying
/// each function in order, allocating a function.
pub open spec fn lowering_error(
    p: AbstractProgram,
    labels: Seq<Label>,
    fallback: Option<Label>,
    e: CompileError,
) -> bool {
    let b = before_ops(p);
    let d = dispatch_code(p, fallback);
    ||| !well_formed_set(b, labels) && verify_error(b, labels, e)
    ||| well_formed_set(b, labels) && alloc_error(b, e)
    ||| well_formed_set(b, labels) && uses_entry_jump(p) && !has_entry_symbol(p) && e
        == CompileError::MissingEntry
    ||| prefix_ok(p, labels) && !labels_resolved(d, labels) && target_error(d, labels, e)
    ||| prefix_ok(p, labels) && labels_resolved(d, labels) && exists|i: int|
        0 <= i < function_count(p) && (forall|k: int|
            0 <= k < i ==> well_formed_set(#[trigger] function_ops(p, k), labels)) && !well_formed_set(
            function_ops(p, i),
            labels,
        ) && verify_error(function_ops(p, i), labels, e)
    ||| verification_succeeds(p, labels, fallback) && exists|i: int|
        0 <= i < function_count(p) && alloc_error(#[trigger] function_ops(p, i), e)
}

fn check_targets(ops: &Vec<AllocatedOp>, from: usize, labels: &Vec<Label>) -> (r: Result<
    (),
    CompileError,
>)
    requires
        from <= ops@.len(),
    ensures
        r.is_ok() <==> labels_resolved(opcodes(ops@).skip(from as int), labels@),
        r.is_err() ==> target_error(opcodes(ops@).skip(from as int), labels@, r->Err_0),
{
    let ghost s = opcodes(ops@).skip(from as int);
    let mut i: usize = from;
    while i < ops.len()
        invariant
            from <= i <= ops@.len(),
            s == opcodes(ops@).skip(from as int),
            labels_resolved(s.take(i - from), labels@),
        decreases ops@.len() - i,
    {
        assert(s[i - from] == ops@[i as int].opcode);
        match target_exec_alloc(&ops[i].opcode) {
            Some(l) => {
                if count_label(labels, l) != 1 {
                    assert(target_of(s[i - from]) == Some(l));
                    return Err(CompileError::UnresolvedLabel(l));
                }
            },
            None => {},
        }
        assert forall|k: int|
            0 <= k < s.take(i + 1 - from).len() && (#[trigger] target_of(
                s.take(i + 1 - from)[k],
            )).is_some() implies count_of(labels@, target_of(s.take(i + 1 - from)[k]).unwrap())
            == 1 by {
            if k < i - from {
                assert(s.take(i + 1 - from)[k] == s.take(i - from)[k]);
            }
        }
        i = i + 1;
    }
    assert(s.take(i - from) == s);
    Ok(())
}

fn target_exec_alloc(op: &Op<AllocatedRegister>) -> (r: Option<Label>)
    ensures
        r == target_of(*op),
{
    match op {
        Op::Control(ControlFlowOp::Jump(l)) => Some(*l),
        Op::Control(ControlFlowOp::JumpIfNotZero(_, l)) => Some(*l),
        Op::Control(ControlFlowOp::Call(l)) => Some(*l),
        _ => None,
    }
}

/// What the lowering keeps of an entry.
pub open spec fn entry_info(e: AbstractEntry) -> EntryInfo {
    (e.selector, e.label, e.name, e.test_decl_ref)
}

fn push_label_defs<R>(ops: &Vec<Instruction<R>>, out: &mut Vec<Label>)
    ensures
        final(out)@ == old(out)@ + label_defs(opcodes(ops@)),
{
    let ghost o = opcodes(ops@);
    let ghost start = out@;
    let mut i: usize = 0;
    while i < ops.len()
        invariant
            i <= ops@.len(),
            o == opcodes(ops@),
            out@ == start + label_defs(o.take(i as int)),
        decreases ops@.len() - i,
    {
        assert(o.take(i + 1).drop_last() == o.take(i as int));
        assert(o.take(i + 1).last() == ops@[i as int].opcode);
        match ops[i].opcode {
            Op::Control(ControlFlowOp::Label(l)) => {
                out.push(l);
                assert(out@ =~= start + label_defs(o.take(i + 1)));
            },
            _ => {},
        }
        i = i + 1;
    }
    assert(o.take(i as int) == o);
}

impl AbstractProgram {
    /// Collects every label the lowered program defines.
    pub fn collect_program_labels(&self, preamble_label: Label) -> (r: Vec<Label>)
        ensures
            r@ == program_labels(*self, preamble_label),
    {
        let mut out: Vec<Label> = Vec::new();
        out.push(preamble_label);
        push_label_defs(&self.before_entries.ops, &mut out);
        let mut i: usize = 0;
        while i < self.entries.len()
            invariant
                i <= self.entries@.len(),
                out@ == seq![preamble_label] + label_defs(self.before_entries.spec_ops())
                    + entries_label_defs(self.entries@.take(i as int)),
            decreases self.entries@.len() - i,
        {
            assert(self.entries@.take(i + 1).drop_last() == self.entries@.take(i as int));
            push_label_defs(&self.entries[i].ops.ops, &mut out);
            i = i + 1;
            assert(out@ =~= seq![preamble_label] + label_defs(self.before_entries.spec_ops())
                + entries_label_defs(self.entries@.take(i as int)));
        }
        assert(self.entries@.take(i as int) == self.entries@);
        let mut i: usize = 0;
        while i < self.non_entries.len()
            invariant
                i <= self.non_entries@.len(),
                out@ == seq![preamble_label] + label_defs(self.before_entries.spec_ops())
                    + entries_label_defs(self.entries@) + sets_label_defs(
                    self.non_entries@.take(i as int),
                ),
            decreases self.non_entries@.len() - i,
        {
            assert(self.non_entries@.take(i + 1).drop_last() == self.non_entries@.take(i as int));
            push_label_defs(&self.non_entries[i].ops, &mut out);
            i = i + 1;
            assert(out@ =~= seq![preamble_label] + label_defs(self.before_entries.spec_ops())
                + entries_label_defs(self.entries@) + sets_label_defs(
                self.non_entries@.take(i as int),
            ));
        }
        assert(self.non_entries@.take(i as int) == self.non_entries@);
        out
    }

    /// Optimizes, verifies and allocates the code run before the entries, and appends it.
    /// On failure the prologue is left as it was.
    pub fn append_before_entries(
        &self,
        prologue: &mut AllocatedInstructionSet,
        program_labels: &Vec<Label>,
    ) -> (r: Result<(), CompileError>)
        ensures
            r.is_ok() ==> well_formed_set(before_ops(*self), program_labels@),
            r.is_ok() ==> exists|a: Seq<Op<AllocatedRegister>>|
                is_allocation(before_ops(*self), a) && final(prologue).spec_ops()
                    == old(prologue).spec_ops() + a,
            r.is_err() ==> final(prologue).ops@ == old(prologue).ops@,
            r.is_err() ==> (!well_formed_set(before_ops(*self), program_labels@) && verify_error(
                before_ops(*self),
                program_labels@,
                r->Err_0,
            )) || (well_formed_set(before_ops(*self), program_labels@) && alloc_error(
                before_ops(*self),
                r->Err_0,
            )),
    {
        let optimized_set = self.before_entries.optimize(&self.data_section);
        let ghost o = optimized_set.spec_ops();
        let verified = match optimized_set.verify(program_labels) {
            Ok(v) => v,
            Err(e) => {
                return Err(e);
            },
        };
        assert(verified.spec_ops() == o);
        let mut before_entries = match verified.allocate_registers() {
            Ok(a) => a,
            Err(e) => {
                return Err(e);
            },
        };
        let ghost a = before_entries.spec_ops();
        assert(is_allocation(o, a));
        let ghost initial = prologue.ops@;
        prologue.ops.append(&mut before_entries.ops);
        assert(opcodes(prologue.ops@) =~= opcodes(initial) + a);
        assert(initial == old(prologue).ops@);
        assert(is_allocation(o, a) && prologue.spec_ops() == old(prologue).spec_ops() + a);
        Ok(())
    }

    /// Lowers the program: builds the preamble, reserves the globals, appends the code run
    /// before the entries, adds the contract dispatch, then optimizes, verifies and allocates
    /// every function. Fails, with nothing returned but the error, where any of these fails.
    pub fn into_allocated_program(self, fallback_fn: Option<Label>) -> (r: Result<
        AllocatedProgram,
        CompileError,
    >)
        requires
            self.reg_seqr.next_label < usize::MAX,
            self.globals_section.wf(),
            self.data_section.value_pairs@.len() + self.entries@.len() <= usize::MAX,
            self.entries@.len() + self.non_entries@.len() <= usize::MAX,
        ensures
            r.is_ok() ==> verification_succeeds(
                self,
                program_labels(self, Label(self.reg_seqr.next_label)),
                fallback_fn,
            ),
            r.is_ok() ==> lowered_as(self, fallback_fn, r.unwrap()),
            r.is_err() ==> lowering_error(
                self,
                program_labels(self, Label(self.reg_seqr.next_label)),
                fallback_fn,
                r->Err_0,
            ),
    {
        let ghost initial = self;
        let mut p = self;
        let preamble_label = Label(p.reg_seqr.next_label);
        let labels = p.collect_program_labels(preamble_label);
        let ghost labels_spec = program_labels(initial, preamble_label);
        let mut prologue = p.build_prologue();
        p.append_globals_allocation(&mut prologue);
        let ghost g = Op::<AllocatedRegister>::Machine(
            Opcode::Cfei(initial.globals_section.spec_len() as u32),
        );
        let ghost after_globals = prologue.spec_ops();
        assert(after_globals == preamble_ops(preamble_label).push(g));
        match p.append_before_entries(&mut prologue, &labels) {
            Ok(()) => {},
            Err(e) => {
                return Err(e);
            },
        }
        let ghost a_before = choose|a: Seq<Op<AllocatedRegister>>|
            is_allocation(optimized(initial.before_entries.spec_ops(), initial.data_section.value_pairs@), a)
                && prologue.spec_ops() == after_globals + a;
        let ghost after_before = prologue.spec_ops();
        let dispatch_start = prologue.ops.len();
        if p.experimental.new_encoding && p.kind == ProgramKind::Contract {
            match p.append_jump_to_entry(&mut prologue) {
                Ok(()) => {},
                Err(e) => {
                    return Err(e);
                },
            }
        } else if p.kind == ProgramKind::Contract {
            p.append_encoding_v0_contract_abi_switch(&mut prologue, fallback_fn);
        }
        assert(p.data_section.value_pairs@ == final_data(initial));
        assert(prologue.spec_ops() =~= after_before + dispatch_code(initial, fallback_fn));
        assert(prologue.spec_ops().skip(dispatch_start as int) =~= dispatch_code(initial, fallback_fn));
        match check_targets(&prologue.ops, dispatch_start, &labels) {
            Ok(()) => {},
            Err(e) => {
                return Err(e);
            },
        }
        let mut infos: Vec<EntryInfo> = Vec::new();
        let mut i: usize = 0;
        while i < p.entries.len()
            invariant
                i <= p.entries@.len(),
                p.entries == initial.entries,
                infos@.len() == i,
                forall|k: int| 0 <= k < i ==> #[trigger] infos@[k] == entry_info(initial.entries@[k]),
            decreases p.entries@.len() - i,
        {
            let e = &p.entries[i];
            infos.push((e.selector, e.label, e.name.clone(), e.test_decl_ref));
            i = i + 1;
        }
        let n = p.entries.len();
        let count = n + p.non_entries.len();
        let mut verified: Vec<AbstractInstructionSet> = Vec::new();
        let mut i: usize = 0;
        while i < count
            invariant
                i <= count,
                n == initial.entries@.len(),
                count == function_count(initial),
                p.entries == initial.entries,
                p.non_entries == initial.non_entries,
                p.data_section.value_pairs@ == final_data(initial),
                labels@ == labels_spec,
                initial == self,
                prefix_ok(initial, labels_spec),
                labels_resolved(dispatch_code(initial, fallback_fn), labels_spec),
                labels_spec == program_labels(initial, Label(initial.reg_seqr.next_label)),
                verified@.len() == i,
                forall|k: int|
                    0 <= k < i ==> (#[trigger] verified@[k]).spec_ops() == function_ops(initial, k)
                        && well_formed_set(verified@[k].spec_ops(), labels_spec),
            decreases count - i,
        {
            let body = if i < n {
                &p.entries[i].ops
            } else {
                &p.non_entries[i - n]
            };
            assert(body.spec_ops() == body_ops(initial, i as int));
            let o = body.optimize(&p.data_section);
            match o.verify(&labels) {
                Ok(v) => {
                    verified.push(v);
                },
                Err(e) => {
                    assert(!well_formed_set(function_ops(initial, i as int), labels_spec));
                    assert forall|k: int| 0 <= k < i implies well_formed_set(
                        #[trigger] function_ops(initial, k),
                        labels_spec,
                    ) by {
                        assert(verified@[k].spec_ops() == function_ops(initial, k));
                    }
                    return Err(e);
                },
            }
            i = i + 1;
        }
        assert forall|k: int| 0 <= k < count implies well_formed_set(
            #[trigger] function_ops(initial, k),
            labels_spec,
        ) by {
            assert(verified@[k].spec_ops() == function_ops(initial, k));
        }
        let mut functions: Vec<AllocatedInstructionSet> = Vec::new();
        let mut i: usize = 0;
        while i < count
            invariant
                i <= count,
                count == function_count(initial),
                initial == self,
                verification_succeeds(initial, labels_spec, fallback_fn),
                labels_spec == program_labels(initial, Label(initial.reg_seqr.next_label)),
                verified@.len() == count,
                forall|k: int|
                    0 <= k < count ==> (#[trigger] verified@[k]).spec_ops() == function_ops(initial, k)
                        && well_formed_set(verified@[k].spec_ops(), labels_spec),
                functions@.len() == i,
                forall|k: int| 0 <= k < i ==> function_lowered(initial, k, #[trigger] functions@[k]),
            decreases count - i,
        {
            let ghost ok = optimized(body_ops(initial, i as int), final_data(initial));
            assert(verified@[i as int].spec_ops() == ok);
            match verified[i].allocate_registers() {
                Ok(a) => {
                    let ghost aa = a.spec_ops();
                    let f = a.emit_pusha_popa();
                    assert(is_allocation(ok, aa) && f.spec_ops() == saved(aa));
                    let ghost fs0 = functions@;
                    functions.push(f);
                    assert forall|k: int| 0 <= k < i + 1 implies function_lowered(
                        initial,
                        k,
                        #[trigger] functions@[k],
                    ) by {
                        if k < i {
                            assert(functions@[k] == fs0[k]);
                        } else {
                            assert(is_allocation(optimized(body_ops(initial, k), final_data(initial)), aa)
                                && functions@[k].spec_ops() == saved(aa));
                        }
                    }
                },
                Err(e) => {
                    assert(alloc_error(function_ops(initial, i as int), e));
                    return Err(e);
                },
            }
            i = i + 1;
        }
        let q = AllocatedProgram {
            kind: p.kind,
            data_section: p.data_section,
            prologue,
            functions,
            entries: infos,
        };
        assert(is_allocation(optimized(initial.before_entries.spec_ops(), initial.data_section.value_pairs@), a_before));
        assert(q.prologue.spec_ops() == preamble_ops(Label(initial.reg_seqr.next_label)).push(
            Op::Machine(Opcode::Cfei(initial.globals_section.spec_len() as u32)),
        ) + a_before + dispatch_code(initial, fallback_fn));
        assert(lowered_as(initial, fallback_fn, q));
        Ok(q)
    }
}

/// Function `k` of the lowered program is the body of function `k` of `p`, optimized against
/// the final data section, allocated, and wrapped in saves and restores.
pub open spec fn function_lowered(p: AbstractProgram, k: int, f: AllocatedInstructionSet) -> bool {
    exists|a: Seq<Op<AllocatedRegister>>|
        is_allocation(optimized(body_ops(p, k), final_data(p)), a) && f.spec_ops() == saved(a)
}

/// What a successful lowering returns: the kind and the entries' selectors, labels, names and
/// test declarations kept; the data section with the switch's words; a prologue made of the
/// preamble, the reservation of the globals, the allocated code run before the entries and the
/// dispatch code; and each function, entries first, optimized, allocated and wrapped in saves
/// and restores of the registers it uses.
pub open spec fn lowered_as(p: AbstractProgram, fallback: Option<Label>, q: AllocatedProgram) -> bool {
    &&& q.kind == p.kind
    &&& q.data_section.value_pairs@ == final_data(p)
    &&& q.entries@.len() == p.entries@.len()
    &&& forall|k: int| 0 <= k < p.entries@.len() ==> #[trigger] q.entries@[k] == entry_info(p.entries@[k])
    &&& q.functions@.len() == function_count(p)
    &&& forall|k: int| 0 <= k < function_count(p) ==> function_lowered(p, k, #[trigger] q.functions@[k])
    &&& exists|a: Seq<Op<AllocatedRegister>>|
        is_allocation(optimized(p.before_entries.spec_ops(), p.data_section.value_pairs@), a)
            && q.prologue.spec_ops() == preamble_ops(Label(p.reg_seqr.next_label)).push(
            Op::Machine(Opcode::Cfei(p.globals_section.spec_len() as u32)),
        ) + a + dispatch_code(p, fallback)
}

/// A new-encoding contract with an `__entry` function dispatches by one unconditional jump to
/// that function's label, with no selector comparison.
pub proof fn lemma_new_encoding_jumps_to_entry(p: AbstractProgram, fallback: Option<Label>)
    requires
        uses_entry_jump(p),
        has_entry_symbol(p),
    ensures
        0 <= first_entry_named(p.entries@) < p.entries@.len(),
        p.entries@[first_entry_named(p.entries@)].name@ == entry_symbol(),
        dispatch_code(p, fallback) == seq![
            Op::<AllocatedRegister>::Control(ControlFlowOp::Jump(p.entries@[first_entry_named(p.entries@)].label)),
        ],
        forall|k: int|
            0 <= k < dispatch_code(p, fallback).len() ==> !(#[trigger] dispatch_code(p, fallback)[k] is Machine),
{
    let i = choose|i: int| 0 <= i < p.entries@.len() && (#[trigger] p.entries@[i]).name@ == entry_symbol();
    lemma_first_entry_bounds(p.entries@, i);
}

proof fn lemma_first_entry_bounds(entries: Seq<AbstractEntry>, i: int)
    requires
        0 <= i < entries.len(),
        entries[i].name@ == entry_symbol(),
    ensures
        0 <= first_entry_named(entries) <= i,
        entries[first_entry_named(entries)].name@ == entry_symbol(),
    decreases i,
{
    if entries[0].name@ != entry_symbol() {
        assert(entries.skip(1)[i - 1] == entries[i]);
        lemma_first_entry_bounds(entries.skip(1), i - 1);
        assert(entries.skip(1)[first_entry_named(entries.skip(1))] == entries[first_entry_named(entries)]);
    }
}

/// A lowered function has as many instructions as its body, less the redundant moves that the
/// peephole pass dropped: allocation and the register saves add or remove none.
pub proof fn lemma_lowered_function_length(
    p: AbstractProgram,
    fallback: Option<Label>,
    q: AllocatedProgram,
    k: int,
)
    requires
        lowered_as(p, fallback, q),
        0 <= k < function_count(p),
    ensures
        q.functions@[k].spec_ops().len() + redundant_count(body_ops(p, k)) == body_ops(p, k).len(),
{
    assert(function_lowered(p, k, q.functions@[k]));
    let o = optimized(body_ops(p, k), final_data(p));
    let a = choose|a: Seq<Op<AllocatedRegister>>|
        is_allocation(o, a) && q.functions@[k].spec_ops() == saved(a);
    let col = choose|col: spec_fn(u64) -> u8| crate::allocate::allocation_by(o, a, col);
    lemma_optimize_len(body_ops(p, k), final_data(p));
}

/// In a lowered contract that dispatches through the selector switch, running the switch
/// against the lowered data section with incoming selector word `input` jumps to the first
/// entry whose selector matches, else calls the fallback, else reverts with the mismatch code.
pub proof fn lemma_lowered_contract_dispatches(
    p: AbstractProgram,
    fallback: Option<Label>,
    q: AllocatedProgram,
    regs: spec_fn(AllocatedRegister) -> u64,
    input: u64,
)
    requires
        lowered_as(p, fallback, q),
        uses_switch(p),
        p.data_section.value_pairs@.len() + p.entries@.len() <= usize::MAX,
    ensures
        run(dispatch_code(p, fallback), 0, regs, q.data_section.value_pairs@, input) == dispatch(
            p.entries@,
            input,
            fallback,
        ),
{
    let base = p.data_section.value_pairs@.len();
    let data = q.data_section.value_pairs@;
    lemma_words_len(p.entries@);
    lemma_case_count_bound(p.entries@);
    assert(data.subrange(base as int, (base + case_count(p.entries@)) as int) =~= selector_words(
        p.entries@,
    ));
    lemma_switch_dispatches(p.entries@, base, fallback, regs, data, input);
}

proof fn lemma_case_count_bound(entries: Seq<AbstractEntry>)
    ensures
        case_count(entries) <= entries.len(),
    decreases entries.len(),
{
    if entries.len() > 0 {
        lemma_case_count_bound(entries.skip(1));
    }
}

} // verus!
