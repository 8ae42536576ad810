//! The engine's laws, proved once and for all over the state-machine model
//! that `engine::step` and `engine::run` are verified against.

use vstd::prelude::*;
use crate::ast::{has_label, SpecInstr, SpecOp};
use crate::engine::{
    find_label, sat_dec, sat_inc, spec_run, spec_step, y_name, SpecState,
};

verus! {

/// Executing an `Inc` increases the variable by exactly 1 and advances the
/// program counter by 1 (stated away from the saturation bound).
pub proof fn lemma_inc_effect(prog: Seq<SpecInstr>, m: Map<Seq<u8>, u32>, pc: int, v: Seq<u8>)
    requires
        0 <= pc < prog.len(),
        prog[pc].op == SpecOp::Inc(v),
        m.contains_key(v),
        m[v] < u32::MAX,
    ensures
        spec_step(prog, m, pc).0 == SpecState::Running(pc + 1),
        spec_step(prog, m, pc).1 == m.insert(v, (m[v] + 1) as u32),
        spec_step(prog, m, pc).1[v] == m[v] + 1,
{
}

/// Executing a `Dec` never drives the variable below 0: decrementing 0
/// leaves it at 0, and otherwise the value drops by exactly 1; the program
/// counter advances by 1.
pub proof fn lemma_dec_effect(prog: Seq<SpecInstr>, m: Map<Seq<u8>, u32>, pc: int, v: Seq<u8>)
    requires
        0 <= pc < prog.len(),
        prog[pc].op == SpecOp::Dec(v),
        m.contains_key(v),
    ensures
        spec_step(prog, m, pc).0 == SpecState::Running(pc + 1),
        spec_step(prog, m, pc).1 == m.insert(v, sat_dec(m[v])),
        m[v] == 0 ==> spec_step(prog, m, pc).1[v] == 0,
        m[v] > 0 ==> spec_step(prog, m, pc).1[v] == m[v] - 1,
{
}

/// Jumping on a variable holding 0 never alters control flow: execution
/// falls through to `pc + 1` and the store is unchanged.
pub proof fn lemma_jmp_zero_falls_through(
    prog: Seq<SpecInstr>,
    m: Map<Seq<u8>, u32>,
    pc: int,
    v: Seq<u8>,
    t: Seq<u8>,
)
    requires
        0 <= pc < prog.len(),
        prog[pc].op == SpecOp::Jmp(v, t),
        m[v] == 0,
    ensures
        spec_step(prog, m, pc) == (SpecState::Running(pc + 1), m),
{
}

proof fn lemma_find_label_none(prog: Seq<SpecInstr>, target: Seq<u8>, pos: int, budget: nat)
    requires
        prog.len() >= 1,
        0 <= pos,
        forall|i: int| 0 <= i < prog.len() ==> !has_label(#[trigger] prog[i], target),
    ensures
        find_label(prog, target, pos, budget) is None,
    decreases budget,
{
    if budget > 0 {
        let p = if pos >= prog.len() {
            0
        } else {
            pos
        };
        assert(!has_label(prog[p], target));
        lemma_find_label_none(prog, target, p + 1, (budget - 1) as nat);
    }
}

/// Jumping to a label that appears nowhere in the program halts execution
/// immediately with the current value of `Y`, wherever the jump stands.
pub proof fn lemma_jmp_absent_halts(
    prog: Seq<SpecInstr>,
    m: Map<Seq<u8>, u32>,
    pc: int,
    v: Seq<u8>,
    t: Seq<u8>,
)
    requires
        0 <= pc < prog.len(),
        prog[pc].op == SpecOp::Jmp(v, t),
        m[v] != 0,
        forall|i: int| 0 <= i < prog.len() ==> !has_label(#[trigger] prog[i], t),
    ensures
        spec_step(prog, m, pc) == (SpecState::Halted(m[y_name()]), m),
{
    lemma_find_label_none(prog, t, pc + 1, (prog.len() - 1) as nat);
}

/// The number of probes the circular search makes before reaching `i` when
/// it starts at `pos`.
pub open spec fn circ_dist(pos: int, i: int, n: int) -> int {
    let p = if pos >= n {
        0
    } else {
        pos
    };
    if i >= p {
        i - p
    } else {
        i + n - p
    }
}

proof fn lemma_find_label_reaches(
    prog: Seq<SpecInstr>,
    target: Seq<u8>,
    pos: int,
    budget: nat,
    i: int,
)
    requires
        prog.len() >= 1,
        0 <= pos <= prog.len(),
        0 <= i < prog.len(),
        has_label(prog[i], target),
        circ_dist(pos, i, prog.len() as int) < budget,
    ensures
        find_label(prog, target, pos, budget) matches Some(j) && 0 <= j < prog.len()
            && has_label(prog[j], target),
    decreases budget,
{
    let n = prog.len() as int;
    let p = if pos >= n {
        0
    } else {
        pos
    };
    if !has_label(prog[p], target) {
        assert(p != i);
        assert(circ_dist(p + 1, i, n) == circ_dist(pos, i, n) - 1);
        lemma_find_label_reaches(prog, target, p + 1, (budget - 1) as nat, i);
    }
}

/// The bounded circular search is complete: every position other than the
/// jump's own is probed before the budget of `len - 1` runs out, so a jump
/// whose guard is non-zero reaches some instruction carrying the target label
/// whenever one exists elsewhere in the program — in particular a labelled
/// `nop` at the last position, found within the bounded probe count.
pub proof fn lemma_jmp_present_found(
    prog: Seq<SpecInstr>,
    m: Map<Seq<u8>, u32>,
    pc: int,
    v: Seq<u8>,
    t: Seq<u8>,
    i: int,
)
    requires
        0 <= pc < prog.len(),
        prog[pc].op == SpecOp::Jmp(v, t),
        m[v] != 0,
        0 <= i < prog.len(),
        i != pc,
        has_label(prog[i], t),
    ensures
        spec_step(prog, m, pc).0 matches SpecState::Running(j) && 0 <= j < prog.len()
            && has_label(prog[j], t),
        spec_step(prog, m, pc).1 == m,
{
    let n = prog.len() as int;
    assert(circ_dist(pc + 1, i, n) < n - 1);
    lemma_find_label_reaches(prog, t, pc + 1, (n - 1) as nat, i);
}

/// Whether an operation is a conditional jump.
pub open spec fn is_jmp(op: SpecOp) -> bool {
    op matches SpecOp::Jmp(_, _)
}

/// A program with no jump instructions.
pub open spec fn no_jmp(prog: Seq<SpecInstr>) -> bool {
    forall|i: int| 0 <= i < prog.len() ==> !is_jmp(#[trigger] prog[i].op)
}

/// The effect of one operation on the store, ignoring control flow.
pub open spec fn op_apply(m: Map<Seq<u8>, u32>, op: SpecOp) -> Map<Seq<u8>, u32> {
    match op {
        SpecOp::Inc(v) => m.insert(v, sat_inc(m[v])),
        SpecOp::Dec(v) => m.insert(v, sat_dec(m[v])),
        SpecOp::Jmp(_, _) => m,
        SpecOp::Nop => m,
    }
}

/// The store after executing the instructions in `pc..end` in order.
pub open spec fn straight_upto(prog: Seq<SpecInstr>, m: Map<Seq<u8>, u32>, pc: int, end: int) -> Map<
    Seq<u8>,
    u32,
>
    decreases end - pc,
{
    if pc < 0 || pc >= end || end > prog.len() {
        m
    } else {
        straight_upto(prog, op_apply(m, prog[pc].op), pc + 1, end)
    }
}

proof fn lemma_straight_aux(prog: Seq<SpecInstr>, m: Map<Seq<u8>, u32>, pc: int, k: nat)
    requires
        no_jmp(prog),
        0 <= pc,
        pc + k <= prog.len(),
    ensures
        spec_run(prog, m, pc, k) == (SpecState::Running(pc + k), straight_upto(
            prog,
            m,
            pc,
            pc + k,
        )),
    decreases k,
{
    if k > 0 {
        assert(!is_jmp(prog[pc].op));
        let m1 = op_apply(m, prog[pc].op);
        assert(spec_step(prog, m, pc) == (SpecState::Running(pc + 1), m1));
        lemma_straight_aux(prog, m1, pc + 1, (k - 1) as nat);
        assert(straight_upto(prog, m, pc, pc + k) == straight_upto(prog, m1, pc + 1, pc + k));
    }
}

/// A program with no jumps halts after exactly `len` steps: for every budget
/// up to `len` the engine is still running, at the counter equal to the steps
/// taken, with the store the sequential effect of the instructions executed
/// so far; one step more halts with `Y` at its net sequential value.
pub proof fn lemma_no_jmp_runs_straight(prog: Seq<SpecInstr>, m: Map<Seq<u8>, u32>, k: nat)
    requires
        no_jmp(prog),
        k <= prog.len(),
    ensures
        spec_run(prog, m, 0, k) == (SpecState::Running(k as int), straight_upto(
            prog,
            m,
            0,
            k as int,
        )),
        spec_run(prog, m, 0, (prog.len() + 1) as nat) == (SpecState::Halted(
            straight_upto(prog, m, 0, prog.len() as int)[y_name()],
        ), straight_upto(prog, m, 0, prog.len() as int)),
{
    lemma_straight_aux(prog, m, 0, k);
    lemma_straight_aux(prog, m, 0, prog.len());
    let mf = straight_upto(prog, m, 0, prog.len() as int);
    let n = prog.len() as int;
    assert(spec_step(prog, mf, n) == (SpecState::Halted(mf[y_name()]), mf));
    lemma_run_split(prog, m, 0, prog.len(), 1);
    assert(spec_run(prog, mf, n, 1) == (SpecState::Halted(mf[y_name()]), mf));
}

/// Running for `a + b` steps is running for `a`, then — unless already
/// halted — for `b` more from where that left off.
pub proof fn lemma_run_split(prog: Seq<SpecInstr>, m: Map<Seq<u8>, u32>, pc: int, a: nat, b: nat)
    ensures
        ({
            let r = spec_run(prog, m, pc, a);
            spec_run(prog, m, pc, a + b) == match r.0 {
                SpecState::Halted(_) => r,
                SpecState::Running(pc2) => spec_run(prog, r.1, pc2, b),
            }
        }),
    decreases a,
{
    if a > 0 {
        let s1 = spec_step(prog, m, pc);
        match s1.0 {
            SpecState::Halted(_) => {},
            SpecState::Running(pc1) => {
                lemma_run_split(prog, s1.1, pc1, (a - 1) as nat, b);
            },
        }
    }
}

} // verus!
