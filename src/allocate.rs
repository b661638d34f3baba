//! Register allocation: every virtual register gets a number of its own from the pool.
use vstd::prelude::*;
use crate::error::CompileError;
use crate::instruction::{
    opcodes, AllocatedOp, AllocatedRegister, ControlFlowOp, Instruction, Op, Opcode,
    VirtualRegister, NUM_ALLOCATABLE_REGISTERS,
};
use crate::instruction_set::{reads, written, AbstractInstructionSet, AllocatedInstructionSet};
use crate::liveness::{
    first_and_last_mention, interfere, lemma_interfere_ranges, lemma_live_range, live_at,
    loop_hull, loop_hull_of, mentioned_at, range_hi, range_lo,
};

verus! {

/// All registers an operation mentions: those it reads, then the one it writes.
pub open spec fn registers_of<R>(op: Op<R>) -> Seq<R> {
    match written(op) {
        Some(d) => reads(op).push(d),
        None => reads(op),
    }
}

/// Some operation mentions the virtual register `v`.
pub open spec fn mentions(ops: Seq<Op<VirtualRegister>>, v: u64) -> bool {
    exists|i: int, k: int|
        0 <= i < ops.len() && 0 <= k < registers_of(ops[i]).len() && #[trigger] registers_of(
            ops[i],
        )[k] == VirtualRegister::Virtual(v)
}

/// The register that `r` becomes when virtual register `v` is given number `col(v)`.
pub open spec fn alloc_reg(r: VirtualRegister, col: spec_fn(u64) -> u8) -> AllocatedRegister {
    match r {
        VirtualRegister::Virtual(v) => AllocatedRegister::Allocated(col(v)),
        VirtualRegister::Constant(c) => AllocatedRegister::Constant(c),
    }
}

/// The numbering that gives `d[n]` the number `cs[n]`.
pub open spec fn color_of(d: Seq<u64>, cs: Seq<u8>) -> spec_fn(u64) -> u8 {
    |v: u64| cs[d.index_of(v)]
}

/// The operation with every register replaced by its allocated register.
pub open spec fn alloc_op(op: Op<VirtualRegister>, col: spec_fn(u64) -> u8) -> Op<AllocatedRegister> {
    match op {
        Op::Machine(m) => Op::Machine(
            match m {
                Opcode::Add(x, a, b) => Opcode::Add(
                    alloc_reg(x, col),
                    alloc_reg(a, col),
                    alloc_reg(b, col),
                ),
                Opcode::Sub(x, a, b) => Opcode::Sub(
                    alloc_reg(x, col),
                    alloc_reg(a, col),
                    alloc_reg(b, col),
                ),
                Opcode::Eq(x, a, b) => Opcode::Eq(alloc_reg(x, col), alloc_reg(a, col), alloc_reg(b, col)),
                Opcode::Move(x, s) => Opcode::Move(alloc_reg(x, col), alloc_reg(s, col)),
                Opcode::MovI(x, v) => Opcode::MovI(alloc_reg(x, col), v),
                Opcode::Lw(x, b, v) => Opcode::Lw(alloc_reg(x, col), alloc_reg(b, col), v),
                Opcode::Sw(b, s, v) => Opcode::Sw(alloc_reg(b, col), alloc_reg(s, col), v),
                Opcode::LoadDataId(x, id) => Opcode::LoadDataId(alloc_reg(x, col), id),
                Opcode::Cfei(v) => Opcode::Cfei(v),
                Opcode::Rvrt(r) => Opcode::Rvrt(alloc_reg(r, col)),
                Opcode::Ret(r) => Opcode::Ret(alloc_reg(r, col)),
                Opcode::PushRegs(n) => Opcode::PushRegs(n),
                Opcode::PopRegs(n) => Opcode::PopRegs(n),
                Opcode::Noop => Opcode::Noop,
            },
        ),
        Op::Control(c) => Op::Control(
            match c {
                ControlFlowOp::Label(l) => ControlFlowOp::Label(l),
                ControlFlowOp::Jump(l) => ControlFlowOp::Jump(l),
                ControlFlowOp::JumpIfNotZero(r, l) => ControlFlowOp::JumpIfNotZero(
                    alloc_reg(r, col),
                    l,
                ),
                ControlFlowOp::Call(l) => ControlFlowOp::Call(l),
                ControlFlowOp::Comment => ControlFlowOp::Comment,
                ControlFlowOp::Metadata => ControlFlowOp::Metadata,
                ControlFlowOp::DataSectionOffsetPlaceholder => ControlFlowOp::DataSectionOffsetPlaceholder,
                ControlFlowOp::PushAll(l) => ControlFlowOp::PushAll(l),
                ControlFlowOp::PopAll(l) => ControlFlowOp::PopAll(l),
            },
        ),
    }
}

/// `out` is `ops` with each virtual register `v` given number `col(v)`: every number is in
/// the pool, and registers that interfere get different numbers.
pub open spec fn allocation_by(
    ops: Seq<Op<VirtualRegister>>,
    out: Seq<Op<AllocatedRegister>>,
    col: spec_fn(u64) -> u8,
) -> bool {
    &&& out.len() == ops.len()
    &&& forall|i: int| 0 <= i < ops.len() ==> #[trigger] out[i] == alloc_op(ops[i], col)
    &&& forall|v: u64| mentions(ops, v) ==> #[trigger] col(v) < NUM_ALLOCATABLE_REGISTERS
    &&& forall|v: u64, w: u64|
        mentions(ops, v) && mentions(ops, w) && #[trigger] interfere(ops, v, w) ==> col(v) != col(w)
}

/// `out` is a register allocation of `ops`.
pub open spec fn is_allocation(ops: Seq<Op<VirtualRegister>>, out: Seq<Op<AllocatedRegister>>) -> bool {
    exists|col: spec_fn(u64) -> u8| allocation_by(ops, out, col)
}

/// `v` interferes with a whole pool's worth of other registers: the witness of a failed
/// allocation.
pub open spec fn crowded(ops: Seq<Op<VirtualRegister>>, v: u64) -> bool {
    mentions(ops, v) && exists|ws: Seq<u64>|
        ws.len() == NUM_ALLOCATABLE_REGISTERS && ws.no_duplicates() && forall|c: int|
            0 <= c < ws.len() ==> mentions(ops, #[trigger] ws[c]) && interfere(ops, v, ws[c])
}

pub(crate) fn registers_exec(op: &Op<VirtualRegister>) -> (r: Vec<VirtualRegister>)
    ensures
        r@ == registers_of(*op),
{
    let mut v: Vec<VirtualRegister> = Vec::new();
    match op {
        Op::Machine(m) => match m {
            Opcode::Add(x, a, b) | Opcode::Sub(x, a, b) | Opcode::Eq(x, a, b) => {
                v.push(*a);
                v.push(*b);
                v.push(*x);
            },
            Opcode::Move(x, s) => {
                v.push(*s);
                v.push(*x);
            },
            Opcode::MovI(x, _) | Opcode::LoadDataId(x, _) => v.push(*x),
            Opcode::Lw(x, b, _) => {
                v.push(*b);
                v.push(*x);
            },
            Opcode::Sw(b, s, _) => {
                v.push(*b);
                v.push(*s);
            },
            Opcode::Rvrt(r) | Opcode::Ret(r) => v.push(*r),
            _ => {},
        },
        Op::Control(ControlFlowOp::JumpIfNotZero(r, _)) => v.push(*r),
        _ => {},
    }
    assert(v@ =~= registers_of(*op));
    v
}

fn contains_exec(d: &Vec<u64>, v: u64) -> (r: bool)
    ensures
        r == d@.contains(v),
{
    let mut j: usize = 0;
    while j < d.len()
        invariant
            j <= d@.len(),
            forall|j2: int| 0 <= j2 < j ==> d@[j2] != v,
        decreases d@.len() - j,
    {
        if d[j] == v {
            return true;
        }
        j = j + 1;
    }
    false
}

fn alloc_reg_exec(r: VirtualRegister, d: &Vec<u64>, cs: &Vec<u8>) -> (a: AllocatedRegister)
    requires
        d@.no_duplicates(),
        cs@.len() == d@.len(),
        r matches VirtualRegister::Virtual(v) ==> d@.contains(v),
    ensures
        a == alloc_reg(r, color_of(d@, cs@)),
{
    match r {
        VirtualRegister::Virtual(v) => {
            let mut j: usize = 0;
            while j < d.len()
                invariant
                    j <= d@.len(),
                    r == VirtualRegister::Virtual(v),
                    cs@.len() == d@.len(),
                    d@.no_duplicates(),
                    d@.contains(v),
                    forall|j2: int| 0 <= j2 < j ==> d@[j2] != v,
                decreases d@.len() - j,
            {
                if d[j] == v {
                    proof {
                        let k = d@.index_of(v);
                        assert(0 <= k < d@.len() && d@[k] == v);
                        assert(k == j as int);
                    }
                    return AllocatedRegister::Allocated(cs[j]);
                }
                j = j + 1;
            }
            proof {
                let w = choose|i: int| 0 <= i < d@.len() && d@[i] == v;
            }
            AllocatedRegister::Allocated(0)
        },
        VirtualRegister::Constant(c) => AllocatedRegister::Constant(c),
    }
}

/// `r` is a constant register, or a virtual one listed in `d`.
pub open spec fn listed(d: Seq<u64>, r: VirtualRegister) -> bool {
    match r {
        VirtualRegister::Virtual(v) => d.contains(v),
        VirtualRegister::Constant(_) => true,
    }
}

fn alloc_op_exec(op: &Op<VirtualRegister>, d: &Vec<u64>, cs: &Vec<u8>) -> (r: Op<AllocatedRegister>)
    requires
        d@.no_duplicates(),
        cs@.len() == d@.len(),
        forall|k: int| 0 <= k < registers_of(*op).len() ==> listed(d@, #[trigger] registers_of(*op)[k]),
    ensures
        r == alloc_op(*op, color_of(d@, cs@)),
{
    let ghost rs = registers_of(*op);
    match op {
        Op::Machine(m) => Op::Machine(
            match m {
                Opcode::Add(x, a, b) => {
                    assert(listed(d@, rs[0]) && listed(d@, rs[1]) && listed(d@, rs[2]));
                    Opcode::Add(alloc_reg_exec(*x, d, cs), alloc_reg_exec(*a, d, cs), alloc_reg_exec(*b, d, cs))
                },
                Opcode::Sub(x, a, b) => {
                    assert(listed(d@, rs[0]) && listed(d@, rs[1]) && listed(d@, rs[2]));
                    Opcode::Sub(alloc_reg_exec(*x, d, cs), alloc_reg_exec(*a, d, cs), alloc_reg_exec(*b, d, cs))
                },
                Opcode::Eq(x, a, b) => {
                    assert(listed(d@, rs[0]) && listed(d@, rs[1]) && listed(d@, rs[2]));
                    Opcode::Eq(alloc_reg_exec(*x, d, cs), alloc_reg_exec(*a, d, cs), alloc_reg_exec(*b, d, cs))
                },
                Opcode::Move(x, s) => {
                    assert(listed(d@, rs[0]) && listed(d@, rs[1]));
                    Opcode::Move(alloc_reg_exec(*x, d, cs), alloc_reg_exec(*s, d, cs))
                },
                Opcode::MovI(x, v) => {
                    assert(listed(d@, rs[0]));
                    Opcode::MovI(alloc_reg_exec(*x, d, cs), *v)
                },
                Opcode::Lw(x, b, v) => {
                    assert(listed(d@, rs[0]) && listed(d@, rs[1]));
                    Opcode::Lw(alloc_reg_exec(*x, d, cs), alloc_reg_exec(*b, d, cs), *v)
                },
                Opcode::Sw(b, s, v) => {
                    assert(listed(d@, rs[0]) && listed(d@, rs[1]));
                    Opcode::Sw(alloc_reg_exec(*b, d, cs), alloc_reg_exec(*s, d, cs), *v)
                },
                Opcode::LoadDataId(x, id) => {
                    assert(listed(d@, rs[0]));
                    Opcode::LoadDataId(alloc_reg_exec(*x, d, cs), *id)
                },
                Opcode::Cfei(v) => Opcode::Cfei(*v),
                Opcode::Rvrt(x) => {
                    assert(listed(d@, rs[0]));
                    Opcode::Rvrt(alloc_reg_exec(*x, d, cs))
                },
                Opcode::Ret(x) => {
                    assert(listed(d@, rs[0]));
                    Opcode::Ret(alloc_reg_exec(*x, d, cs))
                },
                Opcode::PushRegs(n) => Opcode::PushRegs(*n),
                Opcode::PopRegs(n) => Opcode::PopRegs(*n),
                Opcode::Noop => Opcode::Noop,
            },
        ),
        Op::Control(c) => Op::Control(
            match c {
                ControlFlowOp::Label(l) => ControlFlowOp::Label(*l),
                ControlFlowOp::Jump(l) => ControlFlowOp::Jump(*l),
                ControlFlowOp::JumpIfNotZero(x, l) => {
                    assert(listed(d@, rs[0]));
                    ControlFlowOp::JumpIfNotZero(alloc_reg_exec(*x, d, cs), *l)
                },
                ControlFlowOp::Call(l) => ControlFlowOp::Call(*l),
                ControlFlowOp::Comment => ControlFlowOp::Comment,
                ControlFlowOp::Metadata => ControlFlowOp::Metadata,
                ControlFlowOp::DataSectionOffsetPlaceholder => ControlFlowOp::DataSectionOffsetPlaceholder,
                ControlFlowOp::PushAll(l) => ControlFlowOp::PushAll(*l),
                ControlFlowOp::PopAll(l) => ControlFlowOp::PopAll(*l),
            },
        ),
    }
}

impl AbstractInstructionSet {
    /// Numbers the virtual registers from the pool of `NUM_ALLOCATABLE_REGISTERS` registers,
    /// in order of first mention, each taking the lowest number that no interfering register
    /// already holds. Registers whose live ranges do not overlap may share a number. Fails,
    /// naming the register, when a register interferes with registers holding every number.
    /// Comments stay with their instructions.
    pub fn allocate_registers(&self) -> (r: Result<AllocatedInstructionSet, CompileError>)
        ensures
            r.is_ok() ==> is_allocation(self.spec_ops(), opcodes(r.unwrap().ops@)),
            r.is_err() ==> exists|v: u64|
                r == Err::<AllocatedInstructionSet, CompileError>(CompileError::TooManyRegisters(v))
                    && crowded(self.spec_ops(), v),
    {
        broadcast use vstd::seq_lib::lemma_seq_contains_after_push;

        let ghost ops = self.spec_ops();
        let mut d: Vec<u64> = Vec::new();
        let mut i: usize = 0;
        while i < self.ops.len()
            invariant
                i <= self.ops@.len(),
                ops == self.spec_ops(),
                d@.no_duplicates(),
                forall|i2: int, k: int|
                    0 <= i2 < i && 0 <= k < registers_of(ops[i2]).len() ==> listed(
                        d@,
                        #[trigger] registers_of(ops[i2])[k],
                    ),
                forall|m: int| 0 <= m < d@.len() ==> mentions(ops, #[trigger] d@[m]),
            decreases self.ops@.len() - i,
        {
            assert(ops[i as int] == self.ops@[i as int].opcode);
            let rs = registers_exec(&self.ops[i].opcode);
            let mut k: usize = 0;
            while k < rs.len()
                invariant
                    i < self.ops@.len(),
                    k <= rs@.len(),
                    rs@ == registers_of(ops[i as int]),
                    ops == self.spec_ops(),
                    d@.no_duplicates(),
                    forall|i2: int, k2: int|
                        0 <= i2 < i && 0 <= k2 < registers_of(ops[i2]).len() ==> listed(
                            d@,
                            #[trigger] registers_of(ops[i2])[k2],
                        ),
                    forall|k2: int| 0 <= k2 < k ==> listed(d@, #[trigger] rs@[k2]),
                    forall|m: int| 0 <= m < d@.len() ==> mentions(ops, #[trigger] d@[m]),
                decreases rs@.len() - k,
            {
                match rs[k] {
                    VirtualRegister::Virtual(v) => {
                        if !contains_exec(&d, v) {
                            let ghost old_d = d@;
                            d.push(v);
                            proof {
                                assert(registers_of(ops[i as int])[k as int]
                                    == VirtualRegister::Virtual(v));
                                assert(mentions(ops, v));
                                assert forall|a: int, b: int|
                                    0 <= a < d@.len() && 0 <= b < d@.len() && a != b implies d@[a]
                                    != d@[b] by {
                                    if a < old_d.len() && b < old_d.len() {
                                        assert(old_d[a] != old_d[b]);
                                    } else if a < old_d.len() {
                                        assert(old_d.contains(old_d[a]));
                                    } else if b < old_d.len() {
                                        assert(old_d.contains(old_d[b]));
                                    }
                                }
                                assert forall|r: VirtualRegister| listed(old_d, r) implies listed(
                                    d@,
                                    r,
                                ) by {
                                    if let VirtualRegister::Virtual(w) = r {
                                        let x = choose|x: int| 0 <= x < old_d.len() && old_d[x] == w;
                                        assert(d@[x] == w);
                                    }
                                }
                                assert(d@[old_d.len() as int] == v);
                                assert(listed(d@, rs@[k as int]));
                                assert forall|m: int| 0 <= m < d@.len() implies mentions(
                                    ops,
                                    #[trigger] d@[m],
                                ) by {
                                    if m < old_d.len() {
                                        assert(d@[m] == old_d[m]);
                                    }
                                }
                            }
                        }
                    },
                    VirtualRegister::Constant(_) => {},
                }
                k = k + 1;
            }
            i = i + 1;
        }
        let h = loop_hull(&self.ops);
        let ghost hs: Option<(int, int)> = match h {
            Some((x, y)) => Some((x as int, y as int)),
            None => None,
        };
        let mut los: Vec<usize> = Vec::new();
        let mut his: Vec<usize> = Vec::new();
        let mut k: usize = 0;
        while k < d.len()
            invariant
                k <= d@.len(),
                ops == self.spec_ops(),
                loop_hull_of(ops, hs),
                h matches Some((x, y)) ==> hs == Some((x as int, y as int)),
                h is None ==> hs is None,
                forall|m: int| 0 <= m < d@.len() ==> mentions(ops, #[trigger] d@[m]),
                los@.len() == k,
                his@.len() == k,
                forall|a: int|
                    0 <= a < k ==> los@[a] <= his@[a] && forall|p: int|
                        #[trigger] live_at(ops, d@[a], p) == (los@[a] <= p <= his@[a]),
            decreases d@.len() - k,
        {
            let v = d[k];
            proof {
                assert(mentions(ops, d@[k as int]));
                let (i2, k2) = choose|i2: int, k2: int|
                    0 <= i2 < ops.len() && 0 <= k2 < registers_of(ops[i2]).len()
                        && #[trigger] registers_of(ops[i2])[k2] == VirtualRegister::Virtual(v);
                assert(registers_of(ops[i2]).contains(VirtualRegister::Virtual(v)));
                assert(mentioned_at(ops, i2, v));
            }
            let (f, l) = first_and_last_mention(&self.ops, v);
            let mut lo = f;
            let mut hi = l;
            match h {
                Some((hlo, hhi)) => {
                    if f <= hhi && hlo <= l {
                        if hlo < f {
                            lo = hlo;
                        }
                        if l < hhi {
                            hi = hhi;
                        }
                    }
                },
                None => {},
            }
            proof {
                assert(lo as int == range_lo(f as int, l as int, hs));
                assert(hi as int == range_hi(f as int, l as int, hs));
                assert forall|p: int| #[trigger] live_at(ops, v, p) == (lo <= p <= hi) by {
                    lemma_live_range(ops, v, f as int, l as int, hs, p);
                }
                lemma_live_range(ops, v, f as int, l as int, hs, 0);
            }
            los.push(lo);
            his.push(hi);
            k = k + 1;
        }
        let mut colors: Vec<u8> = Vec::new();
        let mut k: usize = 0;
        while k < d.len()
            invariant
                k <= d@.len(),
                ops == self.spec_ops(),
                d@.no_duplicates(),
                forall|m: int| 0 <= m < d@.len() ==> mentions(ops, #[trigger] d@[m]),
                los@.len() == d@.len(),
                his@.len() == d@.len(),
                forall|a: int|
                    0 <= a < d@.len() ==> los@[a] <= his@[a] && forall|p: int|
                        #[trigger] live_at(ops, d@[a], p) == (los@[a] <= p <= his@[a]),
                colors@.len() == k,
                forall|a: int| 0 <= a < k ==> #[trigger] colors@[a] < NUM_ALLOCATABLE_REGISTERS,
                forall|a: int, b: int|
                    0 <= a < k && 0 <= b < k && a != b && los@[a] <= his@[b] && los@[b] <= his@[a]
                        ==> #[trigger] colors@[a] != #[trigger] colors@[b],
            decreases d@.len() - k,
        {
            let mut c: u8 = 0;
            let mut chosen = false;
            let mut blockers: Vec<usize> = Vec::new();
            while c < NUM_ALLOCATABLE_REGISTERS && !chosen
                invariant
                    k < d@.len(),
                    los@.len() == d@.len(),
                    his@.len() == d@.len(),
                    colors@.len() == k,
                    c <= NUM_ALLOCATABLE_REGISTERS,
                    chosen ==> c < NUM_ALLOCATABLE_REGISTERS,
                    chosen ==> forall|a: int|
                        0 <= a < k && los@[a] <= his@[k as int] && los@[k as int] <= his@[a]
                            ==> #[trigger] colors@[a] != c,
                    blockers@.len() == c,
                    forall|c2: int|
                        0 <= c2 < c ==> #[trigger] blockers@[c2] < k && los@[blockers@[c2] as int]
                            <= his@[k as int] && los@[k as int] <= his@[blockers@[c2] as int]
                            && colors@[blockers@[c2] as int] == c2,
                decreases NUM_ALLOCATABLE_REGISTERS - c + if chosen {
                    0int
                } else {
                    1int
                },
            {
                let mut a: usize = 0;
                let mut blocker: Option<usize> = None;
                while a < k
                    invariant
                        a <= k < d@.len(),
                        los@.len() == d@.len(),
                        his@.len() == d@.len(),
                        colors@.len() == k,
                        blocker is None ==> forall|a2: int|
                            0 <= a2 < a && los@[a2] <= his@[k as int] && los@[k as int] <= his@[a2]
                                ==> #[trigger] colors@[a2] != c,
                        blocker matches Some(b) ==> b < k && los@[b as int] <= his@[k as int]
                            && los@[k as int] <= his@[b as int] && colors@[b as int] == c,
                    decreases k - a,
                {
                    if blocker.is_none() && los[a] <= his[k] && los[k] <= his[a] && colors[a] == c {
                        blocker = Some(a);
                    }
                    a = a + 1;
                }
                match blocker {
                    None => {
                        chosen = true;
                    },
                    Some(b) => {
                        blockers.push(b);
                        c = c + 1;
                    },
                }
            }
            if !chosen {
                let v = d[k];
                proof {
                    let ws = Seq::new(blockers@.len(), |c2: int| d@[blockers@[c2] as int]);
                    assert forall|c1: int, c2: int|
                        0 <= c1 < ws.len() && 0 <= c2 < ws.len() && c1 != c2 implies ws[c1]
                        != ws[c2] by {
                        assert(colors@[blockers@[c1] as int] == c1);
                        assert(colors@[blockers@[c2] as int] == c2);
                    }
                    assert forall|c1: int| 0 <= c1 < ws.len() implies mentions(ops, #[trigger] ws[c1])
                        && interfere(ops, v, ws[c1]) by {
                        let b = blockers@[c1] as int;
                        assert(mentions(ops, d@[b]));
                        assert(d@[b] != d@[k as int]);
                        lemma_interfere_ranges(
                            ops,
                            d@[k as int],
                            d@[b],
                            los@[k as int] as int,
                            his@[k as int] as int,
                            los@[b] as int,
                            his@[b] as int,
                        );
                    }
                    assert(mentions(ops, d@[k as int]));
                    assert(c == NUM_ALLOCATABLE_REGISTERS);
                    assert(ws.len() == NUM_ALLOCATABLE_REGISTERS && ws.no_duplicates()
                        && forall|c1: int|
                        0 <= c1 < ws.len() ==> mentions(ops, #[trigger] ws[c1]) && interfere(
                            ops,
                            v,
                            ws[c1],
                        ));
                    assert(crowded(ops, v));
                }
                return Err(CompileError::TooManyRegisters(v));
            }
            colors.push(c);
            k = k + 1;
        }
        let mut out: Vec<AllocatedOp> = Vec::new();
        let mut i: usize = 0;
        while i < self.ops.len()
            invariant
                i <= self.ops@.len(),
                ops == self.spec_ops(),
                d@.no_duplicates(),
                colors@.len() == d@.len(),
                forall|i2: int, k: int|
                    0 <= i2 < ops.len() && 0 <= k < registers_of(ops[i2]).len() ==> listed(
                        d@,
                        #[trigger] registers_of(ops[i2])[k],
                    ),
                out@.len() == i,
                forall|i2: int|
                    0 <= i2 < i ==> #[trigger] out@[i2].opcode == alloc_op(
                        ops[i2],
                        color_of(d@, colors@),
                    ),
            decreases self.ops@.len() - i,
        {
            let op = &self.ops[i];
            assert(ops[i as int] == op.opcode);
            let a = alloc_op_exec(&op.opcode, &d, &colors);
            out.push(Instruction { opcode: a, comment: op.comment.clone() });
            i = i + 1;
        }
        proof {
            let col = color_of(d@, colors@);
            assert forall|v: u64| mentions(ops, v) implies d@.contains(v) && 0 <= d@.index_of(v)
                < d@.len() && d@[d@.index_of(v)] == v by {
                let (i2, k2) = choose|i2: int, k2: int|
                    0 <= i2 < ops.len() && 0 <= k2 < registers_of(ops[i2]).len()
                        && #[trigger] registers_of(ops[i2])[k2] == VirtualRegister::Virtual(v);
                assert(listed(d@, registers_of(ops[i2])[k2]));
            }
            assert forall|v: u64| mentions(ops, v) implies #[trigger] col(v)
                < NUM_ALLOCATABLE_REGISTERS by {
                assert(colors@[d@.index_of(v)] < NUM_ALLOCATABLE_REGISTERS);
            }
            assert forall|v: u64, w: u64|
                mentions(ops, v) && mentions(ops, w) && #[trigger] interfere(ops, v, w) implies col(v)
                != col(w) by {
                let a = d@.index_of(v);
                let b = d@.index_of(w);
                assert(a != b);
                lemma_interfere_ranges(
                    ops,
                    v,
                    w,
                    los@[a] as int,
                    his@[a] as int,
                    los@[b] as int,
                    his@[b] as int,
                );
                assert(colors@[a] != colors@[b]);
            }
            assert(allocation_by(ops, opcodes(out@), col));
        }
        Ok(AllocatedInstructionSet { ops: out })
    }
}

/// The allocated register in position `k` of operation `i`.
proof fn lemma_registers_of_alloc(op: Op<VirtualRegister>, col: spec_fn(u64) -> u8)
    ensures
        registers_of(alloc_op(op, col)).len() == registers_of(op).len(),
        forall|k: int|
            0 <= k < registers_of(op).len() ==> #[trigger] registers_of(alloc_op(op, col))[k]
                == alloc_reg(registers_of(op)[k], col),
{
}

/// Two virtual registers that interfere never share an allocated register, wherever they
/// stand in the set; every virtual register becomes a pool register. Allocation keeps the
/// number of instructions.
pub proof fn lemma_allocation_sound(
    ops: Seq<Op<VirtualRegister>>,
    out: Seq<Op<AllocatedRegister>>,
    i: int,
    k: int,
    j: int,
    m: int,
)
    requires
        is_allocation(ops, out),
        0 <= i < ops.len(),
        0 <= j < ops.len(),
        0 <= k < registers_of(ops[i]).len(),
        0 <= m < registers_of(ops[j]).len(),
        registers_of(ops[i])[k] is Virtual,
        registers_of(ops[j])[m] is Virtual,
        interfere(ops, registers_of(ops[i])[k]->Virtual_0, registers_of(ops[j])[m]->Virtual_0),
    ensures
        out.len() == ops.len(),
        registers_of(out[i])[k] != registers_of(out[j])[m],
        registers_of(out[i])[k] matches AllocatedRegister::Allocated(n) && n < NUM_ALLOCATABLE_REGISTERS,
{
    let col = choose|col: spec_fn(u64) -> u8| allocation_by(ops, out, col);
    lemma_registers_of_alloc(ops[i], col);
    lemma_registers_of_alloc(ops[j], col);
    assert(out[i] == alloc_op(ops[i], col));
    assert(out[j] == alloc_op(ops[j], col));
    let v1 = registers_of(ops[i])[k]->Virtual_0;
    let v2 = registers_of(ops[j])[m]->Virtual_0;
    assert(mentions(ops, v1));
    assert(mentions(ops, v2));
    assert(col(v1) < NUM_ALLOCATABLE_REGISTERS);
}

/// One more than the highest allocated register number, or 0 where there is none.
pub open spec fn reg_top(r: AllocatedRegister) -> nat {
    match r {
        AllocatedRegister::Allocated(n) => n as nat + 1,
        AllocatedRegister::Constant(_) => 0,
    }
}

/// How many pool registers, counted from 0, the registers `rs` cover.
pub open spec fn regs_top(rs: Seq<AllocatedRegister>) -> nat
    decreases rs.len(),
{
    if rs.len() == 0 {
        0
    } else {
        let a = regs_top(rs.drop_last());
        let b = reg_top(rs.last());
        if a < b {
            b
        } else {
            a
        }
    }
}

/// How many pool registers, counted from 0, the operations cover.
pub open spec fn ops_top(ops: Seq<Op<AllocatedRegister>>) -> nat
    decreases ops.len(),
{
    if ops.len() == 0 {
        0
    } else {
        let a = ops_top(ops.drop_last());
        let b = regs_top(registers_of(ops.last()));
        if a < b {
            b
        } else {
            a
        }
    }
}

/// The operations with their save and restore markers replaced by saves and restores of the
/// pool registers they use.
pub open spec fn saved(ops: Seq<Op<AllocatedRegister>>) -> Seq<Op<AllocatedRegister>> {
    Seq::new(ops.len(), |k: int| with_saves(ops[k], ops_top(ops) as u16))
}

/// The save and restore markers replaced by saves and restores of the first `n` pool registers.
pub open spec fn with_saves(op: Op<AllocatedRegister>, n: u16) -> Op<AllocatedRegister> {
    match op {
        Op::Control(ControlFlowOp::PushAll(_)) => Op::Machine(Opcode::PushRegs(n)),
        Op::Control(ControlFlowOp::PopAll(_)) => Op::Machine(Opcode::PopRegs(n)),
        _ => op,
    }
}

proof fn lemma_regs_top_bound(rs: Seq<AllocatedRegister>)
    ensures
        regs_top(rs) <= 256,
    decreases rs.len(),
{
    if rs.len() > 0 {
        lemma_regs_top_bound(rs.drop_last());
    }
}

proof fn lemma_ops_top_bound(ops: Seq<Op<AllocatedRegister>>)
    ensures
        ops_top(ops) <= 256,
    decreases ops.len(),
{
    if ops.len() > 0 {
        lemma_ops_top_bound(ops.drop_last());
        lemma_regs_top_bound(registers_of(ops.last()));
    }
}

fn regs_top_exec(rs: &Vec<AllocatedRegister>) -> (r: u16)
    ensures
        r == regs_top(rs@),
{
    let mut top: u16 = 0;
    let mut k: usize = 0;
    while k < rs.len()
        invariant
            k <= rs@.len(),
            top == regs_top(rs@.take(k as int)),
        decreases rs@.len() - k,
    {
        proof {
            lemma_regs_top_bound(rs@.take(k as int));
            assert(rs@.take(k + 1).drop_last() == rs@.take(k as int));
        }
        let b: u16 = match rs[k] {
            AllocatedRegister::Allocated(n) => n as u16 + 1,
            AllocatedRegister::Constant(_) => 0,
        };
        if top < b {
            top = b;
        }
        k = k + 1;
    }
    assert(rs@.take(k as int) == rs@);
    top
}

fn registers_alloc_exec(op: &Op<AllocatedRegister>) -> (r: Vec<AllocatedRegister>)
    ensures
        r@ == registers_of(*op),
{
    let mut v: Vec<AllocatedRegister> = Vec::new();
    match op {
        Op::Machine(m) => match m {
            Opcode::Add(x, a, b) | Opcode::Sub(x, a, b) | Opcode::Eq(x, a, b) => {
                v.push(*a);
                v.push(*b);
                v.push(*x);
            },
            Opcode::Move(x, s) => {
                v.push(*s);
                v.push(*x);
            },
            Opcode::MovI(x, _) | Opcode::LoadDataId(x, _) => v.push(*x),
            Opcode::Lw(x, b, _) => {
                v.push(*b);
                v.push(*x);
            },
            Opcode::Sw(b, s, _) => {
                v.push(*b);
                v.push(*s);
            },
            Opcode::Rvrt(r) | Opcode::Ret(r) => v.push(*r),
            _ => {},
        },
        Op::Control(ControlFlowOp::JumpIfNotZero(r, _)) => v.push(*r),
        _ => {},
    }
    assert(v@ =~= registers_of(*op));
    v
}

impl AllocatedInstructionSet {
    pub open spec fn spec_ops(&self) -> Seq<Op<AllocatedRegister>> {
        opcodes(self.ops@)
    }

    /// Number of pool registers, counted from 0, that the set uses.
    pub fn registers_in_use(&self) -> (r: u16)
        ensures
            r == ops_top(self.spec_ops()),
    {
        let ghost ops = self.spec_ops();
        let mut top: u16 = 0;
        let mut i: usize = 0;
        while i < self.ops.len()
            invariant
                i <= self.ops@.len(),
                ops == self.spec_ops(),
                top == ops_top(ops.take(i as int)),
            decreases self.ops@.len() - i,
        {
            proof {
                lemma_ops_top_bound(ops.take(i as int));
                assert(ops.take(i + 1).drop_last() == ops.take(i as int));
                assert(ops[i as int] == self.ops@[i as int].opcode);
            }
            let b = regs_top_exec(&registers_alloc_exec(&self.ops[i].opcode));
            if top < b {
                top = b;
            }
            i = i + 1;
        }
        assert(ops.take(i as int) == ops);
        top
    }

    /// Replaces each save marker by a save of the pool registers the set uses, and each
    /// restore marker by their restore, so that a call leaves the caller's registers intact.
    pub fn emit_pusha_popa(self) -> (r: Self)
        ensures
            r.ops@.len() == self.ops@.len(),
            r.spec_ops() == saved(self.spec_ops()),
            forall|i: int|
                0 <= i < self.ops@.len() ==> #[trigger] r.spec_ops()[i] == with_saves(
                    self.spec_ops()[i],
                    ops_top(self.spec_ops()) as u16,
                ),
    {
        let n = self.registers_in_use();
        let mut out: Vec<AllocatedOp> = Vec::new();
        let mut i: usize = 0;
        while i < self.ops.len()
            invariant
                i <= self.ops@.len(),
                n == ops_top(self.spec_ops()),
                out@.len() == i,
                forall|i2: int|
                    0 <= i2 < i ==> #[trigger] out@[i2].opcode == with_saves(
                        self.ops@[i2].opcode,
                        n,
                    ),
            decreases self.ops@.len() - i,
        {
            let op = &self.ops[i];
            let opcode = match op.opcode {
                Op::Control(ControlFlowOp::PushAll(_)) => Op::Machine(Opcode::PushRegs(n)),
                Op::Control(ControlFlowOp::PopAll(_)) => Op::Machine(Opcode::PopRegs(n)),
                other => other,
            };
            out.push(Instruction { opcode, comment: op.comment.clone() });
            i = i + 1;
        }
        let r = AllocatedInstructionSet { ops: out };
        assert(r.spec_ops() =~= saved(self.spec_ops()));
        r
    }
}

} // verus!
