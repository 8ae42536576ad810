//! The instruction sequence a program parses to, and its mathematical model.
//!
//! An instruction is one of four operations with an optional attached label;
//! the model (`SpecInstr`) carries the same data over `Seq<u8>` so contracts
//! and lemmas can speak of it directly.

use vstd::prelude::*;
use crate::lex::{spec_valid_label, spec_valid_var};

verus! {

/// One of the four operations of the language.
pub enum Op {
    /// Increase the variable by 1 (saturating at the machine maximum).
    Inc(Vec<u8>),
    /// Decrease the variable by 1, floored at 0.
    Dec(Vec<u8>),
    /// If the variable is non-zero, jump to the first instruction carrying the
    /// target label, searching circularly from the next position.
    Jmp(Vec<u8>, Vec<u8>),
    /// No effect; exists to carry a label.
    Nop,
}

/// An operation together with its optional attached label.
pub struct Instruction {
    pub label: Option<Vec<u8>>,
    pub op: Op,
}

/// Model of an operation, over byte sequences.
pub enum SpecOp {
    Inc(Seq<u8>),
    Dec(Seq<u8>),
    Jmp(Seq<u8>, Seq<u8>),
    Nop,
}

/// Model of an instruction.
pub struct SpecInstr {
    pub label: Option<Seq<u8>>,
    pub op: SpecOp,
}

impl View for Op {
    type V = SpecOp;

    open spec fn view(&self) -> SpecOp {
        match self {
            Op::Inc(v) => SpecOp::Inc(v@),
            Op::Dec(v) => SpecOp::Dec(v@),
            Op::Jmp(v, t) => SpecOp::Jmp(v@, t@),
            Op::Nop => SpecOp::Nop,
        }
    }
}

impl View for Instruction {
    type V = SpecInstr;

    open spec fn view(&self) -> SpecInstr {
        SpecInstr {
            label: match self.label {
                Some(l) => Some(l@),
                None => None,
            },
            op: self.op@,
        }
    }
}

/// The models of a parsed instruction sequence, in order.
pub open spec fn instr_views(p: Seq<Instruction>) -> Seq<SpecInstr> {
    p.map_values(|i: Instruction| i@)
}

/// The variable an operation reads or writes, if any.
pub open spec fn op_var(op: SpecOp) -> Option<Seq<u8>> {
    match op {
        SpecOp::Inc(v) => Some(v),
        SpecOp::Dec(v) => Some(v),
        SpecOp::Jmp(v, _) => Some(v),
        SpecOp::Nop => None,
    }
}

/// Whether an instruction carries the given label.
pub open spec fn has_label(i: SpecInstr, t: Seq<u8>) -> bool {
    match i.label {
        Some(l) => l == t,
        None => false,
    }
}

/// A well-formed instruction: its label, variable and jump target are all
/// valid identifiers of their namespaces.
pub open spec fn wf_instr(i: SpecInstr) -> bool {
    &&& match i.label {
        Some(l) => spec_valid_label(l),
        None => true,
    }
    &&& match i.op {
        SpecOp::Inc(v) => spec_valid_var(v),
        SpecOp::Dec(v) => spec_valid_var(v),
        SpecOp::Jmp(v, t) => spec_valid_var(v) && spec_valid_label(t),
        SpecOp::Nop => true,
    }
}

/// Decides whether an instruction carries the given label.
pub fn instr_has_label(i: &Instruction, t: &Vec<u8>) -> (r: bool)
    ensures
        r == has_label(i@, t@),
{
    match &i.label {
        Some(l) => crate::lex::bytes_eq(l, t),
        None => false,
    }
}

} // verus!
