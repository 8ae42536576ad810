//! The parser / validator: one source line becomes one instruction, or the
//! whole program is rejected with a line-numbered syntax error.
//!
//! The concrete syntax is the token-keyword form, tokens separated by
//! whitespace. Accepted shapes, by token count:
//!
//! | tokens | shape                          | result        |
//! |--------|--------------------------------|---------------|
//! | 1      | any single token (placeholder) | unlabelled nop|
//! | 2      | `inc <var>` / `dec <var>`      | inc / dec     |
//! | 2      | `<label>: <placeholder>`       | labelled nop  |
//! | 3      | `jmp <var> <label>`            | jmp           |
//! | 3      | `<label>: inc|dec <var>`       | labelled      |
//! | 4      | `<label>: jmp <var> <label>`   | labelled jmp  |
//!
//! Anything else is a syntax error; `jmp` without a target is invalid.
//!
//! Note that a line of one single token is *always* the unlabelled
//! placeholder, its text ignored — a lone `A:` therefore parses as a plain
//! `nop` and does not define a jump target. To attach a label to a no-op,
//! write the two-token form `A: nop`.

use vstd::prelude::*;
use crate::ast::{Instruction, Op, SpecInstr, SpecOp};
use crate::lex::{
    copy_bytes, label_token, spec_label_token, spec_strip_colon, spec_valid_label, spec_valid_var,
    strip_colon, tokenize, tokens_of, valid_label, valid_var,
};

verus! {

/// The keyword `inc`.
pub open spec fn kw_inc() -> Seq<u8> {
    seq![105u8, 110u8, 99u8]
}

/// The keyword `dec`.
pub open spec fn kw_dec() -> Seq<u8> {
    seq![100u8, 101u8, 99u8]
}

/// The keyword `jmp`.
pub open spec fn kw_jmp() -> Seq<u8> {
    seq![106u8, 109u8, 112u8]
}

/// The keyword `nop`.
pub open spec fn kw_nop() -> Seq<u8> {
    seq![110u8, 111u8, 112u8]
}

/// The grammar, stated over the token list of a line: the instruction the
/// tokens denote, or `None` when they match no accepted shape.
pub open spec fn spec_parse_tokens(ts: Seq<Seq<u8>>) -> Option<SpecInstr> {
    if ts.len() == 1 {
        Some(SpecInstr { label: None, op: SpecOp::Nop })
    } else if ts.len() == 2 {
        if ts[0] == kw_inc() && spec_valid_var(ts[1]) {
            Some(SpecInstr { label: None, op: SpecOp::Inc(ts[1]) })
        } else if ts[0] == kw_dec() && spec_valid_var(ts[1]) {
            Some(SpecInstr { label: None, op: SpecOp::Dec(ts[1]) })
        } else if spec_label_token(ts[0]) {
            Some(SpecInstr { label: Some(spec_strip_colon(ts[0])), op: SpecOp::Nop })
        } else {
            None
        }
    } else if ts.len() == 3 {
        if ts[0] == kw_jmp() && spec_valid_var(ts[1]) && spec_valid_label(ts[2]) {
            Some(SpecInstr { label: None, op: SpecOp::Jmp(ts[1], ts[2]) })
        } else if spec_label_token(ts[0]) && ts[1] == kw_inc() && spec_valid_var(ts[2]) {
            Some(SpecInstr { label: Some(spec_strip_colon(ts[0])), op: SpecOp::Inc(ts[2]) })
        } else if spec_label_token(ts[0]) && ts[1] == kw_dec() && spec_valid_var(ts[2]) {
            Some(SpecInstr { label: Some(spec_strip_colon(ts[0])), op: SpecOp::Dec(ts[2]) })
        } else {
            None
        }
    } else if ts.len() == 4 {
        if spec_label_token(ts[0]) && ts[1] == kw_jmp() && spec_valid_var(ts[2])
            && spec_valid_label(ts[3]) {
            Some(SpecInstr { label: Some(spec_strip_colon(ts[0])), op: SpecOp::Jmp(ts[2], ts[3]) })
        } else {
            None
        }
    } else {
        None
    }
}

/// What a whole line parses to: the grammar applied to its tokens.
pub open spec fn spec_parse_line(line: Seq<u8>) -> Option<SpecInstr> {
    spec_parse_tokens(tokens_of(line))
}

/// A line the parser accepts yields a well-formed instruction.
pub proof fn lemma_parse_wf(line: Seq<u8>)
    requires
        spec_parse_line(line) is Some,
    ensures
        crate::ast::wf_instr(spec_parse_line(line)->Some_0),
{
    let ts = tokens_of(line);
    if ts.len() == 2 || ts.len() == 3 || ts.len() == 4 {
        if spec_label_token(ts[0]) {
            crate::lex::lemma_label_token_strip(ts[0]);
        }
    }
}

fn tok_eq3(t: &Vec<u8>, b0: u8, b1: u8, b2: u8) -> (r: bool)
    ensures
        r == (t@ == seq![b0, b1, b2]),
{
    if t.len() == 3 && t[0] == b0 && t[1] == b1 && t[2] == b2 {
        assert(t@ =~= seq![b0, b1, b2]);
        true
    } else {
        assert(t@ != seq![b0, b1, b2]) by {
            if t@.len() == 3 {
                assert(t@[0] == b0 && t@[1] == b1 && t@[2] == b2 ==> false);
            }
        }
        false
    }
}

/// A line-numbered syntax error: the 1-based number and the raw text of the
/// first line that matches no accepted shape.
pub struct SyntaxError {
    pub line: usize,
    pub text: Vec<u8>,
}

/// Parses one source line (already trimmed of its terminator; blank and
/// comment lines are filtered out by the caller).
pub fn parse_line(line: &Vec<u8>) -> (r: Option<Instruction>)
    ensures
        match r {
            Some(i) => spec_parse_line(line@) == Some(i@),
            None => spec_parse_line(line@) is None,
        },
{
    let ts = tokenize(line);
    let ghost tsv = ts@.map_values(|t: Vec<u8>| t@);
    assert(forall|j: int| 0 <= j < ts@.len() ==> tsv[j] == #[trigger] ts@[j]@);
    if ts.len() == 1 {
        Some(Instruction { label: None, op: Op::Nop })
    } else if ts.len() == 2 {
        if tok_eq3(&ts[0], 105, 110, 99) && valid_var(&ts[1]) {
            Some(Instruction { label: None, op: Op::Inc(copy_bytes(&ts[1])) })
        } else if tok_eq3(&ts[0], 100, 101, 99) && valid_var(&ts[1]) {
            Some(Instruction { label: None, op: Op::Dec(copy_bytes(&ts[1])) })
        } else if label_token(&ts[0]) {
            Some(Instruction { label: Some(strip_colon(&ts[0])), op: Op::Nop })
        } else {
            None
        }
    } else if ts.len() == 3 {
        if tok_eq3(&ts[0], 106, 109, 112) && valid_var(&ts[1]) && valid_label(&ts[2]) {
            Some(Instruction {
                label: None,
                op: Op::Jmp(copy_bytes(&ts[1]), copy_bytes(&ts[2])),
            })
        } else if label_token(&ts[0]) && tok_eq3(&ts[1], 105, 110, 99) && valid_var(&ts[2]) {
            Some(Instruction {
                label: Some(strip_colon(&ts[0])),
                op: Op::Inc(copy_bytes(&ts[2])),
            })
        } else if label_token(&ts[0]) && tok_eq3(&ts[1], 100, 101, 99) && valid_var(&ts[2]) {
            Some(Instruction {
                label: Some(strip_colon(&ts[0])),
                op: Op::Dec(copy_bytes(&ts[2])),
            })
        } else {
            None
        }
    } else if ts.len() == 4 {
        if label_token(&ts[0]) && tok_eq3(&ts[1], 106, 109, 112) && valid_var(&ts[2])
            && valid_label(&ts[3]) {
            Some(Instruction {
                label: Some(strip_colon(&ts[0])),
                op: Op::Jmp(copy_bytes(&ts[2]), copy_bytes(&ts[3])),
            })
        } else {
            None
        }
    } else {
        None
    }
}

/// Parses a whole program, all-or-nothing: every line becomes an instruction,
/// or the first offending line is reported and nothing is executed.
pub fn parse_program(lines: &Vec<Vec<u8>>) -> (r: Result<Vec<Instruction>, SyntaxError>)
    ensures
        match r {
            Ok(p) => {
                &&& p@.len() == lines@.len()
                &&& forall|i: int|
                    0 <= i < lines@.len() ==> spec_parse_line(lines@[i]@) == Some(#[trigger] p@[i]@)
            },
            Err(e) => {
                &&& 1 <= e.line <= lines@.len()
                &&& spec_parse_line(lines@[e.line - 1]@) is None
                &&& e.text@ == lines@[e.line - 1]@
                &&& forall|i: int| 0 <= i < e.line - 1 ==> spec_parse_line(#[trigger] lines@[i]@) is Some
            },
        },
{
    let mut prog: Vec<Instruction> = Vec::new();
    let mut i: usize = 0;
    while i < lines.len()
        invariant
            i <= lines.len(),
            prog@.len() == i,
            forall|j: int|
                0 <= j < i ==> spec_parse_line(lines@[j]@) == Some(#[trigger] prog@[j]@),
        decreases lines.len() - i,
    {
        match parse_line(&lines[i]) {
            Some(instr) => {
                prog.push(instr);
            },
            None => {
                assert forall|j: int| 0 <= j < i implies spec_parse_line(
                    #[trigger] lines@[j]@,
                ) is Some by {
                    assert(spec_parse_line(lines@[j]@) == Some(prog@[j]@));
                }
                return Err(SyntaxError { line: i + 1, text: copy_bytes(&lines[i]) });
            },
        }
        i = i + 1;
    }
    Ok(prog)
}

} // verus!
