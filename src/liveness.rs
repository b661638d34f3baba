//! Live ranges of virtual registers, as the register allocator sees them.
//!
//! A register is live from its first mention to its last one. Code between the target and the
//! source of a backward jump may run again, so a register live anywhere in the hull of all such
//! loops is taken to be live over the whole hull.
use vstd::prelude::*;
use crate::allocate::{registers_exec, registers_of};
use crate::instruction::{defined_label, opcodes, AbstractOp, ControlFlowOp, Label, Op, VirtualRegister};

verus! {

/// Operation `i` mentions virtual register `v`.
pub open spec fn mentioned_at(ops: Seq<Op<VirtualRegister>>, i: int, v: u64) -> bool {
    0 <= i < ops.len() && registers_of(ops[i]).contains(VirtualRegister::Virtual(v))
}

/// The label a jump or conditional jump goes to.
pub open spec fn jump_target<R>(op: Op<R>) -> Option<Label> {
    match op {
        Op::Control(ControlFlowOp::Jump(l)) => Some(l),
        Op::Control(ControlFlowOp::JumpIfNotZero(_, l)) => Some(l),
        _ => None,
    }
}

/// The jump at `j` goes back to the label defined at `t`.
pub open spec fn back_edge(ops: Seq<Op<VirtualRegister>>, t: int, j: int) -> bool {
    0 <= t <= j < ops.len() && defined_label(ops[t]).is_some() && jump_target(ops[j])
        == defined_label(ops[t])
}

/// Position `p` lies between the first loop start and the last loop end.
pub open spec fn in_loop_hull(ops: Seq<Op<VirtualRegister>>, p: int) -> bool {
    (exists|t: int, j: int| #[trigger] back_edge(ops, t, j) && t <= p) && (exists|t: int, j: int|
        #[trigger] back_edge(ops, t, j) && p <= j)
}

/// Position `p` lies between two mentions of `v`.
pub open spec fn spans(ops: Seq<Op<VirtualRegister>>, v: u64, p: int) -> bool {
    (exists|i: int| i <= p && #[trigger] mentioned_at(ops, i, v)) && (exists|k: int|
        p <= k && #[trigger] mentioned_at(ops, k, v))
}

/// `v` may hold a value that is still needed at position `p`.
pub open spec fn live_at(ops: Seq<Op<VirtualRegister>>, v: u64, p: int) -> bool {
    spans(ops, v, p) || (in_loop_hull(ops, p) && exists|q: int|
        #[trigger] spans(ops, v, q) && in_loop_hull(ops, q))
}

/// Two different registers live at a same position: they may not share a register.
pub open spec fn interfere(ops: Seq<Op<VirtualRegister>>, v: u64, w: u64) -> bool {
    v != w && exists|p: int| #[trigger] live_at(ops, v, p) && live_at(ops, w, p)
}

/// `f` and `l` are the first and last mentions of `v`.
pub open spec fn mention_bounds(ops: Seq<Op<VirtualRegister>>, v: u64, f: int, l: int) -> bool {
    mentioned_at(ops, f, v) && mentioned_at(ops, l, v) && forall|i: int|
        #[trigger] mentioned_at(ops, i, v) ==> f <= i <= l
}

/// `h` is the hull of the loops: from the first loop start to the last loop end.
pub open spec fn loop_hull_of(ops: Seq<Op<VirtualRegister>>, h: Option<(int, int)>) -> bool {
    match h {
        None => forall|t: int, j: int| !#[trigger] back_edge(ops, t, j),
        Some((lo, hi)) => (exists|j: int| #[trigger] back_edge(ops, lo, j)) && (exists|t: int|
            #[trigger] back_edge(ops, t, hi)) && forall|t: int, j: int|
            #[trigger] back_edge(ops, t, j) ==> lo <= t && j <= hi,
    }
}

/// The live range of a register first and last mentioned at `f` and `l`: its span, joined
/// with the loop hull where the two meet.
pub open spec fn range_lo(f: int, l: int, h: Option<(int, int)>) -> int {
    match h {
        Some((lo, hi)) => if f <= hi && lo <= l && lo < f {
            lo
        } else {
            f
        },
        None => f,
    }
}

pub open spec fn range_hi(f: int, l: int, h: Option<(int, int)>) -> int {
    match h {
        Some((lo, hi)) => if f <= hi && lo <= l && l < hi {
            hi
        } else {
            l
        },
        None => l,
    }
}

proof fn lemma_spans(ops: Seq<Op<VirtualRegister>>, v: u64, f: int, l: int, p: int)
    requires
        mention_bounds(ops, v, f, l),
    ensures
        spans(ops, v, p) == (f <= p <= l),
{
    if spans(ops, v, p) {
        let i = choose|i: int| i <= p && #[trigger] mentioned_at(ops, i, v);
        let k = choose|k: int| p <= k && #[trigger] mentioned_at(ops, k, v);
    }
    if f <= p <= l {
        assert(mentioned_at(ops, f, v));
        assert(mentioned_at(ops, l, v));
    }
}

proof fn lemma_hull(ops: Seq<Op<VirtualRegister>>, h: Option<(int, int)>, p: int)
    requires
        loop_hull_of(ops, h),
    ensures
        in_loop_hull(ops, p) == (h is Some && h.unwrap().0 <= p <= h.unwrap().1),
        h is Some ==> h.unwrap().0 <= h.unwrap().1,
{
    match h {
        None => {
            if in_loop_hull(ops, p) {
                let (t, j) = choose|t: int, j: int| #[trigger] back_edge(ops, t, j) && t <= p;
            }
        },
        Some((lo, hi)) => {
            let j0 = choose|j: int| #[trigger] back_edge(ops, lo, j);
            let t0 = choose|t: int| #[trigger] back_edge(ops, t, hi);
            assert(lo <= j0 <= hi);
            if in_loop_hull(ops, p) {
                let (t, j) = choose|t: int, j: int| #[trigger] back_edge(ops, t, j) && t <= p;
                let (t2, j2) = choose|t: int, j: int| #[trigger] back_edge(ops, t, j) && p <= j;
            }
            if lo <= p <= hi {
                assert(back_edge(ops, lo, j0) && lo <= p);
                assert(back_edge(ops, t0, hi) && p <= hi);
            }
        },
    }
}

/// Where `v` is live: exactly the positions of its live range.
pub proof fn lemma_live_range(
    ops: Seq<Op<VirtualRegister>>,
    v: u64,
    f: int,
    l: int,
    h: Option<(int, int)>,
    p: int,
)
    requires
        mention_bounds(ops, v, f, l),
        loop_hull_of(ops, h),
    ensures
        live_at(ops, v, p) == (range_lo(f, l, h) <= p <= range_hi(f, l, h)),
        range_lo(f, l, h) <= range_hi(f, l, h),
{
    lemma_spans(ops, v, f, l, p);
    lemma_hull(ops, h, p);
    assert(f <= l);
    let meets = exists|q: int| #[trigger] spans(ops, v, q) && in_loop_hull(ops, q);
    match h {
        None => {
            if meets {
                let q = choose|q: int| #[trigger] spans(ops, v, q) && in_loop_hull(ops, q);
                lemma_hull(ops, h, q);
            }
        },
        Some((lo, hi)) => {
            if meets {
                let q = choose|q: int| #[trigger] spans(ops, v, q) && in_loop_hull(ops, q);
                lemma_spans(ops, v, f, l, q);
                lemma_hull(ops, h, q);
            }
            if f <= hi && lo <= l {
                let q = if f < lo {
                    lo
                } else {
                    f
                };
                lemma_spans(ops, v, f, l, q);
                lemma_hull(ops, h, q);
                assert(spans(ops, v, q) && in_loop_hull(ops, q));
            }
        },
    }
}

/// Two registers interfere exactly when their live ranges overlap.
pub proof fn lemma_interfere_ranges(
    ops: Seq<Op<VirtualRegister>>,
    v: u64,
    w: u64,
    lo1: int,
    hi1: int,
    lo2: int,
    hi2: int,
)
    requires
        v != w,
        lo1 <= hi1,
        lo2 <= hi2,
        forall|p: int| #[trigger] live_at(ops, v, p) == (lo1 <= p <= hi1),
        forall|p: int| #[trigger] live_at(ops, w, p) == (lo2 <= p <= hi2),
    ensures
        interfere(ops, v, w) == (lo1 <= hi2 && lo2 <= hi1),
        interfere(ops, v, w) == interfere(ops, w, v),
{
    if lo1 <= hi2 && lo2 <= hi1 {
        let p = if lo1 < lo2 {
            lo2
        } else {
            lo1
        };
        assert(live_at(ops, v, p) && live_at(ops, w, p));
        assert(live_at(ops, w, p) && live_at(ops, v, p));
    }
    if interfere(ops, w, v) {
        let p = choose|p: int| #[trigger] live_at(ops, w, p) && live_at(ops, v, p);
        assert(live_at(ops, v, p));
    }
}

fn mentions_exec(op: &Op<VirtualRegister>, v: u64) -> (r: bool)
    ensures
        r == registers_of(*op).contains(VirtualRegister::Virtual(v)),
{
    let rs = registers_exec(op);
    let mut k: usize = 0;
    while k < rs.len()
        invariant
            k <= rs@.len(),
            rs@ == registers_of(*op),
            forall|k2: int| 0 <= k2 < k ==> rs@[k2] != VirtualRegister::Virtual(v),
        decreases rs@.len() - k,
    {
        if rs[k] == VirtualRegister::Virtual(v) {
            return true;
        }
        k = k + 1;
    }
    false
}

/// The first and last positions that mention `v`.
pub fn first_and_last_mention(ops: &Vec<AbstractOp>, v: u64) -> (r: (usize, usize))
    requires
        exists|i: int| #[trigger] mentioned_at(opcodes(ops@), i, v),
    ensures
        mention_bounds(opcodes(ops@), v, r.0 as int, r.1 as int),
{
    let ghost o = opcodes(ops@);
    let mut found = false;
    let mut f: usize = 0;
    let mut l: usize = 0;
    let mut i: usize = 0;
    while i < ops.len()
        invariant
            i <= ops@.len(),
            o == opcodes(ops@),
            found ==> mentioned_at(o, f as int, v) && mentioned_at(o, l as int, v) && f <= l < i,
            forall|i2: int| 0 <= i2 < i && #[trigger] mentioned_at(o, i2, v) ==> found && f <= i2 <= l,
        decreases ops@.len() - i,
    {
        assert(o[i as int] == ops@[i as int].opcode);
        if mentions_exec(&ops[i].opcode, v) {
            assert(mentioned_at(o, i as int, v));
            if !found {
                found = true;
                f = i;
            }
            l = i;
        }
        i = i + 1;
    }
    let ghost w = choose|i: int| #[trigger] mentioned_at(o, i, v);
    assert(found);
    (f, l)
}

fn jump_target_exec(op: &Op<VirtualRegister>) -> (r: Option<Label>)
    ensures
        r == jump_target(*op),
{
    match op {
        Op::Control(ControlFlowOp::Jump(l)) => Some(*l),
        Op::Control(ControlFlowOp::JumpIfNotZero(_, l)) => Some(*l),
        _ => None,
    }
}

fn defined_label_exec(op: &Op<VirtualRegister>) -> (r: Option<Label>)
    ensures
        r == defined_label(*op),
{
    match op {
        Op::Control(ControlFlowOp::Label(l)) => Some(*l),
        _ => None,
    }
}

/// The hull of the loops of `ops`, if it has any.
pub fn loop_hull(ops: &Vec<AbstractOp>) -> (r: Option<(usize, usize)>)
    ensures
        loop_hull_of(
            opcodes(ops@),
            match r {
                Some((a, b)) => Some((a as int, b as int)),
                None => None,
            },
        ),
{
    let ghost o = opcodes(ops@);
    let mut h: Option<(usize, usize)> = None;
    let ghost mut lo_j: int = 0;
    let ghost mut hi_t: int = 0;
    let mut j: usize = 0;
    while j < ops.len()
        invariant
            j <= ops@.len(),
            o == opcodes(ops@),
            h is None ==> forall|t: int, j2: int| #[trigger] back_edge(o, t, j2) ==> j2 >= j,
            h matches Some((lo, hi)) ==> back_edge(o, lo as int, lo_j) && back_edge(o, hi_t, hi as int)
                && forall|t: int, j2: int|
                #[trigger] back_edge(o, t, j2) && j2 < j ==> lo <= t && j2 <= hi,
        decreases ops@.len() - j,
    {
        assert(o[j as int] == ops@[j as int].opcode);
        match jump_target_exec(&ops[j].opcode) {
            Some(target) => {
                let mut t: usize = 0;
                while t <= j
                    invariant
                        j < ops@.len(),
                        ops@.len() <= usize::MAX,
                        t <= j + 1,
                        o == opcodes(ops@),
                        jump_target(o[j as int]) == Some(target),
                        h is None ==> forall|t2: int, j2: int|
                            #[trigger] back_edge(o, t2, j2) ==> j2 > j || (j2 == j && t2 >= t),
                        h matches Some((lo, hi)) ==> back_edge(o, lo as int, lo_j) && back_edge(
                            o,
                            hi_t,
                            hi as int,
                        ) && forall|t2: int, j2: int|
                            #[trigger] back_edge(o, t2, j2) && (j2 < j || (j2 == j && t2 < t)) ==> lo
                                <= t2 && j2 <= hi,
                    decreases j + 1 - t,
                {
                    assert(o[t as int] == ops@[t as int].opcode);
                    if defined_label_exec(&ops[t].opcode) == Some(target) {
                        assert(back_edge(o, t as int, j as int));
                        match h {
                            None => {
                                h = Some((t, j));
                                proof {
                                    lo_j = j as int;
                                    hi_t = t as int;
                                }
                            },
                            Some((lo, hi)) => {
                                let mut nlo = lo;
                                if t < lo {
                                    nlo = t;
                                    proof {
                                        lo_j = j as int;
                                    }
                                }
                                let mut nhi = hi;
                                if j > hi {
                                    nhi = j;
                                    proof {
                                        hi_t = t as int;
                                    }
                                }
                                h = Some((nlo, nhi));
                            },
                        }
                    }
                    t = t + 1;
                }
            },
            None => {
                assert forall|t: int| !back_edge(o, t, j as int) by {}
            },
        }
        j = j + 1;
    }
    h
}

} // verus!
