use counter_machine::ast::Instruction;
use counter_machine::engine::{init_store, run, step, State};
use counter_machine::parse::parse_program;
use counter_machine::store::Store;

fn lines(v: &[&str]) -> Vec<Vec<u8>> {
    let mut out: Vec<Vec<u8>> = Vec::new();
    for s in v {
        out.push(s.as_bytes().to_vec());
    }
    out
}

fn program(v: &[&str]) -> Vec<Instruction> {
    match parse_program(&lines(v)) {
        Ok(p) => p,
        Err(_) => panic!("expected a parse"),
    }
}

fn value(s: &Store, name: &str) -> Option<u32> {
    s.get(&name.as_bytes().to_vec())
}

/// Drives the engine one transition at a time until it halts.
fn run_by_steps(prog: &Vec<Instruction>, store: &mut Store, max_steps: usize) -> (u32, usize) {
    let mut pc: usize = 0;
    let mut taken: usize = 0;
    loop {
        assert!(taken <= max_steps, "did not halt within the step bound");
        match step(prog, store, pc) {
            State::Halted(y) => return (y, taken),
            State::Running(p2) => {
                pc = p2;
                taken += 1;
            },
        }
    }
}

#[test]
fn aux_variables_do_not_leak_into_output() {
    // scenario: two increments of Z1 and a decrement of Y from 0
    let prog = program(&["inc Z1", "inc Z1", "dec Y"]);
    let mut store = init_store(&prog, &Vec::new());
    let (y, _) = run_by_steps(&prog, &mut store, 10);
    assert_eq!(y, 0);
    assert_eq!(value(&store, "Z1"), Some(2));
    assert_eq!(value(&store, "Y"), Some(0));
    assert_eq!(run(&prog, &Vec::new(), 100), Some(0));
}

#[test]
fn loop_copies_input_to_output() {
    // scenario: Y counts the decrements of X1 until its guard reaches 0
    let prog = program(&["A: inc Y", "dec X1", "jmp X1 A"]);
    assert_eq!(run(&prog, &vec![3], 100), Some(3));
    assert_eq!(run(&prog, &vec![0], 100), Some(1));
}

#[test]
fn jump_to_absent_label_halts_immediately() {
    // scenario: label Q is defined nowhere, and Y was never set
    let prog = program(&["jmp X1 Q"]);
    assert_eq!(run(&prog, &vec![5], 100), Some(0));
    let mut store = init_store(&prog, &vec![5]);
    let (y, taken) = run_by_steps(&prog, &mut store, 10);
    assert_eq!(y, 0);
    assert_eq!(taken, 0);
    // the guard variable is untouched by the halting jump
    assert_eq!(value(&store, "X1"), Some(5));
}

#[test]
fn labelled_nop_at_last_position_is_found() {
    // the jump skips the increment: the target nop at the last position is
    // reached within the bounded probe count
    let prog = program(&["jmp X1 E", "inc Y", "E: nop"]);
    assert_eq!(run(&prog, &vec![1], 100), Some(0));
    assert_eq!(run(&prog, &vec![0], 100), Some(1));
}

#[test]
fn label_search_wraps_past_the_end() {
    // from the jump at the last position the search wraps to index 0
    let prog = program(&["A: dec X1", "jmp X1 A"]);
    let mut store = init_store(&prog, &vec![2]);
    let first = step(&prog, &mut store, 0);
    assert_eq!(first, State::Running(1));
    assert_eq!(value(&store, "X1"), Some(1));
    let second = step(&prog, &mut store, 1);
    // the guard is 1: the search wrapped and found the label at index 0
    assert_eq!(second, State::Running(0));
    let (y, _) = run_by_steps(&prog, &mut store, 10);
    assert_eq!(y, 0);
    assert_eq!(value(&store, "X1"), Some(0));
}

#[test]
fn inc_adds_one_and_advances() {
    let prog = program(&["inc Y", "inc Y", "inc Z1"]);
    let mut store = init_store(&prog, &Vec::new());
    assert_eq!(step(&prog, &mut store, 0), State::Running(1));
    assert_eq!(value(&store, "Y"), Some(1));
    assert_eq!(step(&prog, &mut store, 1), State::Running(2));
    assert_eq!(value(&store, "Y"), Some(2));
}

#[test]
fn dec_floors_at_zero() {
    let prog = program(&["dec Y", "inc Y", "dec Y", "dec Y"]);
    let mut store = init_store(&prog, &Vec::new());
    assert_eq!(step(&prog, &mut store, 0), State::Running(1));
    assert_eq!(value(&store, "Y"), Some(0));
    let (y, taken) = run_by_steps(&prog, &mut store, 10);
    assert_eq!(y, 0);
    // a program without jumps takes exactly one step per instruction
    assert_eq!(taken, 4);
}

#[test]
fn straight_line_program_halts_after_len_steps() {
    let prog = program(&["inc Y", "nop", "inc Y", "dec Z1", "inc Y"]);
    let mut store = init_store(&prog, &Vec::new());
    let (y, taken) = run_by_steps(&prog, &mut store, 10);
    assert_eq!(y, 3);
    assert_eq!(taken, 5);
}

#[test]
fn jump_on_zero_falls_through() {
    let prog = program(&["jmp X1 A", "inc Y", "A: inc Y"]);
    // X1 = 0: the jump falls through and both increments execute
    assert_eq!(run(&prog, &vec![0], 100), Some(2));
    // X1 = 1: the jump is taken and only the labelled increment executes
    assert_eq!(run(&prog, &vec![1], 100), Some(1));
}

#[test]
fn inputs_bind_positionally() {
    let prog = program(&["inc X2", "dec X1", "dec X3"]);
    let mut store = init_store(&prog, &vec![5, 7]);
    assert_eq!(value(&store, "X1"), Some(5));
    assert_eq!(value(&store, "X2"), Some(7));
    // X3 had no input and is seeded to 0
    assert_eq!(value(&store, "X3"), Some(0));
    assert_eq!(value(&store, "Y"), Some(0));
    assert_eq!(value(&store, "X4"), None);
    let (y, _) = run_by_steps(&prog, &mut store, 10);
    assert_eq!(y, 0);
    assert_eq!(value(&store, "X1"), Some(4));
    assert_eq!(value(&store, "X2"), Some(8));
    assert_eq!(value(&store, "X3"), Some(0));
}

#[test]
fn increment_saturates_at_the_machine_maximum() {
    let prog = program(&["inc X1"]);
    let mut store = init_store(&prog, &vec![u32::MAX]);
    let (_, _) = run_by_steps(&prog, &mut store, 10);
    assert_eq!(value(&store, "X1"), Some(u32::MAX));
}

#[test]
fn out_of_fuel_returns_none() {
    let prog = program(&["inc Y", "inc Y"]);
    assert_eq!(run(&prog, &Vec::new(), 0), None);
    assert_eq!(run(&prog, &Vec::new(), 2), None);
    // halting takes one transition beyond the last instruction
    assert_eq!(run(&prog, &Vec::new(), 3), Some(2));
}

#[test]
fn infinite_loop_exhausts_any_fuel() {
    // a self-sustaining cycle: the guard never reaches zero
    let prog = program(&["A: inc Z1", "jmp Z1 A"]);
    assert_eq!(run(&prog, &Vec::new(), 10_000), None);
}

#[test]
fn duplicate_labels_first_match_wins() {
    // the circular search from pc+1 meets the second A first
    let prog = program(&["jmp X1 A", "A: inc Y", "A: dec X1"]);
    let mut store = init_store(&prog, &vec![1]);
    assert_eq!(step(&prog, &mut store, 0), State::Running(1));
}

#[test]
fn empty_program_halts_with_zero() {
    let prog = program(&[]);
    assert_eq!(run(&prog, &Vec::new(), 1), Some(0));
    assert_eq!(run(&prog, &vec![9], 1), Some(0));
}
