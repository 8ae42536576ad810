//! The execution engine: a fetch-decode-execute state machine over a parsed
//! program and a variable store.
//!
//! The engine is a pure step function from `Running(pc)` to the next state:
//! falling off the end halts with the current value of `Y`; a conditional
//! jump on a non-zero variable searches circularly from `pc + 1`, probing at
//! most `len - 1` positions, for the first instruction carrying the target
//! label — exhausting that budget without a match is the language's idiom for
//! an explicit halt, not an error.

use vstd::prelude::*;
use crate::ast::{has_label, instr_views, op_var, Instruction, Op, SpecInstr, SpecOp};
use crate::store::Store;

verus! {

/// The name of the output variable `Y`.
pub open spec fn y_name() -> Seq<u8> {
    seq![89u8]
}

/// Decimal digits of `n`, most significant first.
pub open spec fn dec_rep(n: nat) -> Seq<u8>
    decreases n,
{
    if n < 10 {
        seq![(48 + n) as u8]
    } else {
        dec_rep(n / 10).push((48 + n % 10) as u8)
    }
}

/// The name of the `k`-th input variable: `X` followed by `k` in decimal.
pub open spec fn x_name(k: nat) -> Seq<u8> {
    seq![88u8] + dec_rep(k)
}

/// Model of the engine state: still running at a program counter, or halted
/// with the final value of `Y`.
pub enum SpecState {
    Running(int),
    Halted(u32),
}

/// The engine state.
#[derive(Clone, Copy, PartialEq, Eq, Debug)]
pub enum State {
    Running(usize),
    Halted(u32),
}

impl View for State {
    type V = SpecState;

    open spec fn view(&self) -> SpecState {
        match self {
            State::Running(pc) => SpecState::Running(*pc as int),
            State::Halted(y) => SpecState::Halted(*y),
        }
    }
}

/// Increment, saturating at the machine maximum.
pub open spec fn sat_inc(x: u32) -> u32 {
    if x == u32::MAX {
        x
    } else {
        (x + 1) as u32
    }
}

/// Decrement, floored at 0.
pub open spec fn sat_dec(x: u32) -> u32 {
    if x == 0 {
        0u32
    } else {
        (x - 1) as u32
    }
}

/// The variable an instruction references, if any, is present in the store.
pub open spec fn var_covered(ins: SpecInstr, m: Map<Seq<u8>, u32>) -> bool {
    match op_var(ins.op) {
        Some(v) => m.contains_key(v),
        None => true,
    }
}

/// Every variable referenced anywhere in the program is present in the store.
pub open spec fn covers(prog: Seq<SpecInstr>, m: Map<Seq<u8>, u32>) -> bool {
    forall|i: int| 0 <= i < prog.len() ==> var_covered(#[trigger] prog[i], m)
}

/// The bounded circular label search: starting at `pos` (which wraps to 0 at
/// the end of the program), the first position carrying `target`, probing at
/// most `budget` positions.
pub open spec fn find_label(prog: Seq<SpecInstr>, target: Seq<u8>, pos: int, budget: nat) -> Option<
    int,
>
    decreases budget,
{
    if budget == 0 {
        None
    } else {
        let p = if pos >= prog.len() {
            0
        } else {
            pos
        };
        if has_label(prog[p], target) {
            Some(p)
        } else {
            find_label(prog, target, p + 1, (budget - 1) as nat)
        }
    }
}

/// One transition of the state machine from `Running(pc)`: the next state and
/// the store after it.
pub open spec fn spec_step(prog: Seq<SpecInstr>, m: Map<Seq<u8>, u32>, pc: int) -> (SpecState, Map<
    Seq<u8>,
    u32,
>) {
    if !(0 <= pc < prog.len()) {
        (SpecState::Halted(m[y_name()]), m)
    } else {
        match prog[pc].op {
            SpecOp::Inc(v) => (SpecState::Running(pc + 1), m.insert(v, sat_inc(m[v]))),
            SpecOp::Dec(v) => (SpecState::Running(pc + 1), m.insert(v, sat_dec(m[v]))),
            SpecOp::Nop => (SpecState::Running(pc + 1), m),
            SpecOp::Jmp(v, t) => if m[v] == 0 {
                (SpecState::Running(pc + 1), m)
            } else {
                match find_label(prog, t, pc + 1, (prog.len() - 1) as nat) {
                    Some(j) => (SpecState::Running(j), m),
                    None => (SpecState::Halted(m[y_name()]), m),
                }
            },
        }
    }
}

/// Up to `fuel` transitions from `Running(pc)`, stopping early on a halt.
pub open spec fn spec_run(prog: Seq<SpecInstr>, m: Map<Seq<u8>, u32>, pc: int, fuel: nat) -> (
    SpecState,
    Map<Seq<u8>, u32>,
)
    decreases fuel,
{
    if fuel == 0 {
        (SpecState::Running(pc), m)
    } else {
        let r = spec_step(prog, m, pc);
        match r.0 {
            SpecState::Halted(y) => (SpecState::Halted(y), r.1),
            SpecState::Running(pc1) => spec_run(prog, r.1, pc1, (fuel - 1) as nat),
        }
    }
}

/// The store at program start, before seeding: `Y` at 0 and the first `k`
/// inputs bound positionally to `X1`, `X2`, ...
pub open spec fn init_base(inputs: Seq<u32>, k: nat) -> Map<Seq<u8>, u32>
    decreases k,
{
    if k == 0 {
        Map::empty().insert(y_name(), 0u32)
    } else {
        init_base(inputs, (k - 1) as nat).insert(x_name(k), inputs[k - 1])
    }
}

/// Adds the variable referenced by one instruction at value 0, if absent.
pub open spec fn seed_one(m: Map<Seq<u8>, u32>, ins: SpecInstr) -> Map<Seq<u8>, u32> {
    match op_var(ins.op) {
        Some(v) => if m.contains_key(v) {
            m
        } else {
            m.insert(v, 0u32)
        },
        None => m,
    }
}

/// Seeds the variables referenced by the instructions from position `i` on.
pub open spec fn seed_from(m: Map<Seq<u8>, u32>, prog: Seq<SpecInstr>, i: int) -> Map<Seq<u8>, u32>
    decreases prog.len() - i,
{
    if i < 0 || i >= prog.len() {
        m
    } else {
        seed_from(seed_one(m, prog[i]), prog, i + 1)
    }
}

/// The initial store of a run: `Y` at 0, inputs bound to `X1..Xn`, and every
/// other variable referenced by the program at 0.
pub open spec fn spec_init(prog: Seq<SpecInstr>, inputs: Seq<u32>) -> Map<Seq<u8>, u32> {
    seed_from(init_base(inputs, inputs.len()), prog, 0)
}

/// The base store holds `Y`, at 0: input names all start with `X`.
pub proof fn lemma_init_base_y(inputs: Seq<u32>, k: nat)
    ensures
        init_base(inputs, k).contains_key(y_name()),
        init_base(inputs, k)[y_name()] == 0u32,
    decreases k,
{
    if k > 0 {
        lemma_init_base_y(inputs, (k - 1) as nat);
        assert(x_name(k) != y_name()) by {
            assert(x_name(k)[0] == 88);
            assert(y_name()[0] == 89);
        }
    }
}

/// The byte string `Y`.
pub fn y_key() -> (r: Vec<u8>)
    ensures
        r@ == y_name(),
{
    let mut r: Vec<u8> = Vec::new();
    r.push(89);
    assert(r@ =~= y_name());
    r
}

fn push_dec_digits(out: &mut Vec<u8>, n: usize)
    ensures
        final(out)@ == old(out)@ + dec_rep(n as nat),
    decreases n,
{
    if n < 10 {
        out.push(48 + n as u8);
        assert(out@ =~= old(out)@ + dec_rep(n as nat));
    } else {
        push_dec_digits(out, n / 10);
        out.push(48 + (n % 10) as u8);
        assert(out@ =~= old(out)@ + dec_rep(n as nat));
    }
}

/// The byte string `Xk` for the `k`-th input.
pub fn x_key(k: usize) -> (r: Vec<u8>)
    ensures
        r@ == x_name(k as nat),
{
    let mut r: Vec<u8> = Vec::new();
    r.push(88);
    push_dec_digits(&mut r, k);
    assert(r@ =~= x_name(k as nat));
    r
}

/// Builds the initial store for a program and its inputs.
#[verifier::loop_isolation(false)]
pub fn init_store(prog: &Vec<Instruction>, inputs: &Vec<u32>) -> (s: Store)
    ensures
        s@ == spec_init(instr_views(prog@), inputs@),
        covers(instr_views(prog@), s@),
        s@.contains_key(y_name()),
{
    let ghost pv = instr_views(prog@);
    let mut s = Store::new();
    let yk = y_key();
    s.set(&yk, 0);
    assert(s@ =~= init_base(inputs@, 0));
    let mut k: usize = 0;
    while k < inputs.len()
        invariant
            k <= inputs.len(),
            s@ == init_base(inputs@, k as nat),
        decreases inputs.len() - k,
    {
        let xk = x_key(k + 1);
        s.set(&xk, inputs[k]);
        assert(s@ =~= init_base(inputs@, (k + 1) as nat));
        k = k + 1;
    }
    proof {
        lemma_init_base_y(inputs@, inputs@.len());
    }
    let mut i: usize = 0;
    while i < prog.len()
        invariant
            i <= prog.len(),
            pv == instr_views(prog@),
            pv.len() == prog@.len(),
            seed_from(s@, pv, i as int) == seed_from(init_base(inputs@, inputs@.len()), pv, 0),
            s@.contains_key(y_name()),
            forall|j: int| 0 <= j < i ==> var_covered(#[trigger] pv[j], s@),
        decreases prog.len() - i,
    {
        let ghost pre = s@;
        assert(pv[i as int] == prog@[i as int]@);
        match &prog[i].op {
            Op::Inc(v) => {
                if s.get(v).is_none() {
                    s.set(v, 0);
                }
            },
            Op::Dec(v) => {
                if s.get(v).is_none() {
                    s.set(v, 0);
                }
            },
            Op::Jmp(v, _t) => {
                if s.get(v).is_none() {
                    s.set(v, 0);
                }
            },
            Op::Nop => {},
        }
        assert(s@ == seed_one(pre, pv[i as int]));
        assert(var_covered(pv[i as int], s@));
        assert(forall|j: int| 0 <= j < i ==> var_covered(#[trigger] pv[j], s@)) by {
            assert(forall|k2: Seq<u8>|
                pre.contains_key(k2) ==> #[trigger] seed_one(pre, pv[i as int]).contains_key(k2));
        }
        i = i + 1;
    }
    assert(s@ == spec_init(pv, inputs@));
    s
}

/// Performs one transition of the engine from `Running(pc)`, mutating the
/// store and returning the next state, exactly as `spec_step` describes.
#[verifier::loop_isolation(false)]
pub fn step(prog: &Vec<Instruction>, store: &mut Store, pc: usize) -> (s: State)
    requires
        covers(instr_views(prog@), old(store)@),
        old(store)@.contains_key(y_name()),
    ensures
        ({
            let r = spec_step(instr_views(prog@), old(store)@, pc as int);
            s@ == r.0 && final(store)@ == r.1
        }),
        covers(instr_views(prog@), final(store)@),
        final(store)@.contains_key(y_name()),
{
    let ghost pv = instr_views(prog@);
    if pc >= prog.len() {
        let yk = y_key();
        let y = store.get_present(&yk);
        return State::Halted(y);
    }
    assert(pv[pc as int] == prog@[pc as int]@);
    assert(var_covered(pv[pc as int], store@));
    let ins = &prog[pc];
    match &ins.op {
        Op::Inc(v) => {
            let cur = store.get_present(v);
            let nv = if cur == u32::MAX {
                cur
            } else {
                cur + 1
            };
            store.set(v, nv);
            State::Running(pc + 1)
        },
        Op::Dec(v) => {
            let cur = store.get_present(v);
            let nv = if cur == 0 {
                0
            } else {
                cur - 1
            };
            store.set(v, nv);
            State::Running(pc + 1)
        },
        Op::Nop => State::Running(pc + 1),
        Op::Jmp(v, t) => {
            let cur = store.get_present(v);
            if cur == 0 {
                State::Running(pc + 1)
            } else {
                let ghost startpos = pc + 1 as int;
                let ghost total = (prog@.len() - 1) as nat;
                let mut pos: usize = pc + 1;
                let mut budget: usize = prog.len() - 1;
                while budget > 0
                    invariant
                        prog@.len() >= 1,
                        pv == instr_views(prog@),
                        pv.len() == prog@.len(),
                        pos <= prog@.len(),
                        budget <= prog@.len() - 1,
                        find_label(pv, t@, startpos, total) == find_label(
                            pv,
                            t@,
                            pos as int,
                            budget as nat,
                        ),
                    decreases budget,
                {
                    if pos >= prog.len() {
                        pos = 0;
                    }
                    assert(pv[pos as int] == prog@[pos as int]@);
                    if crate::ast::instr_has_label(&prog[pos], t) {
                        assert(find_label(pv, t@, startpos, total) == Some(pos as int));
                        return State::Running(pos);
                    }
                    pos = pos + 1;
                    budget = budget - 1;
                }
                assert(find_label(pv, t@, startpos, total) is None);
                let yk = y_key();
                let y = store.get_present(&yk);
                State::Halted(y)
            }
        },
    }
}

/// Runs the engine from `Running(0)` on a freshly initialised store, for at
/// most `fuel` transitions: the final value of `Y` when the program halts
/// within the budget, `None` otherwise.
#[verifier::loop_isolation(false)]
pub fn run(prog: &Vec<Instruction>, inputs: &Vec<u32>, fuel: u64) -> (r: Option<u32>)
    ensures
        ({
            let end = spec_run(
                instr_views(prog@),
                spec_init(instr_views(prog@), inputs@),
                0,
                fuel as nat,
            );
            r == match end.0 {
                SpecState::Halted(y) => Some(y),
                SpecState::Running(_) => None::<u32>,
            }
        }),
{
    let ghost pv = instr_views(prog@);
    let ghost init = spec_init(pv, inputs@);
    let mut store = init_store(prog, inputs);
    let mut pc: usize = 0;
    let mut remaining: u64 = fuel;
    while remaining > 0
        invariant
            pv == instr_views(prog@),
            covers(pv, store@),
            store@.contains_key(y_name()),
            remaining <= fuel,
            spec_run(pv, init, 0, fuel as nat) == spec_run(
                pv,
                store@,
                pc as int,
                remaining as nat,
            ),
        decreases remaining,
    {
        let ghost pre = store@;
        let ghost oldpc = pc as int;
        let ghost oldrem = remaining as nat;
        let s = step(prog, &mut store, pc);
        match s {
            State::Halted(y) => {
                proof {
                    let r = spec_step(pv, pre, oldpc);
                    assert(spec_run(pv, pre, oldpc, oldrem) == (SpecState::Halted(y), r.1));
                }
                return Some(y);
            },
            State::Running(p2) => {
                proof {
                    let r = spec_step(pv, pre, oldpc);
                    assert(spec_run(pv, pre, oldpc, oldrem) == spec_run(
                        pv,
                        r.1,
                        p2 as int,
                        (oldrem - 1) as nat,
                    ));
                }
                pc = p2;
                remaining = remaining - 1;
            },
        }
    }
    None
}

} // verus!
