//! Canonical serialization of instructions, and the round-trip law: parsing a
//! canonically serialized line yields the instruction back, so re-serializing
//! a canonical program is byte-identical.
//!
//! The canonical form uses the token keywords, single spaces between tokens,
//! and a `<label>: ` prefix for an attached label; a bare `nop` stands for an
//! unlabelled no-op.

use vstd::prelude::*;
use crate::ast::{wf_instr, Instruction, Op, SpecInstr, SpecOp};
use crate::lex::{is_digit, is_space, spec_valid_label, spec_valid_var, tokens_of};
use crate::parse::{kw_dec, kw_inc, kw_jmp, kw_nop, spec_parse_line, spec_parse_tokens};

verus! {

/// The canonical bytes of an operation.
pub open spec fn spec_ser_op(op: SpecOp) -> Seq<u8> {
    match op {
        SpecOp::Inc(v) => kw_inc() + seq![32u8] + v,
        SpecOp::Dec(v) => kw_dec() + seq![32u8] + v,
        SpecOp::Jmp(v, t) => kw_jmp() + seq![32u8] + v + seq![32u8] + t,
        SpecOp::Nop => kw_nop(),
    }
}

/// The canonical bytes of an instruction: an optional `<label>: ` prefix and
/// its operation.
pub open spec fn spec_ser_instr(i: SpecInstr) -> Seq<u8> {
    match i.label {
        Some(l) => l + seq![58u8, 32u8] + spec_ser_op(i.op),
        None => spec_ser_op(i.op),
    }
}

/// No byte of `s` is whitespace.
pub open spec fn no_space(s: Seq<u8>) -> bool {
    forall|i: int| 0 <= i < s.len() ==> !is_space(s[i])
}

/// A line of a single space-free token has exactly that token.
proof fn lemma_tokens_single(t: Seq<u8>)
    requires
        t.len() >= 1,
        no_space(t),
    ensures
        tokens_of(t) == seq![t],
    decreases t.len(),
{
    assert(!is_space(t[0]));
    if t.len() == 1 {
        assert(seq![t[0]] =~= t);
        assert(t.skip(1).len() == 0);
        assert(tokens_of(t.skip(1)) =~~= Seq::<Seq<u8>>::empty());
        assert(tokens_of(t) =~~= seq![t]);
    } else {
        assert(no_space(t.skip(1))) by {
            assert(forall|i: int| 0 <= i < t.skip(1).len() ==> t.skip(1)[i] == t[i + 1]);
        }
        lemma_tokens_single(t.skip(1));
        assert(!is_space(t[1]));
        assert(seq![t[0]] + t.skip(1) =~= t);
        assert(tokens_of(t) =~~= seq![t]);
    }
}

/// A space-free token followed by a space splits off as the first token.
proof fn lemma_tokens_cat(t: Seq<u8>, rest: Seq<u8>)
    requires
        t.len() >= 1,
        no_space(t),
    ensures
        tokens_of(t + seq![32u8] + rest) == seq![t] + tokens_of(rest),
    decreases t.len(),
{
    let s = t + seq![32u8] + rest;
    assert(s[0] == t[0]);
    if t.len() == 1 {
        assert(is_space(s[1]));
        assert(s.skip(1) =~= seq![32u8] + rest);
        assert((seq![32u8] + rest).skip(1) =~= rest);
        assert(tokens_of(seq![32u8] + rest) == tokens_of(rest));
        assert(seq![s[0]] =~= t);
        assert(tokens_of(s) =~~= seq![t] + tokens_of(rest));
    } else {
        assert(s[1] == t[1]);
        assert(!is_space(s[1]));
        assert(no_space(t.skip(1))) by {
            assert(forall|i: int| 0 <= i < t.skip(1).len() ==> t.skip(1)[i] == t[i + 1]);
        }
        lemma_tokens_cat(t.skip(1), rest);
        assert(s.skip(1) =~= t.skip(1) + seq![32u8] + rest);
        let inner = tokens_of(s.skip(1));
        assert(inner == seq![t.skip(1)] + tokens_of(rest));
        assert(inner[0] == t.skip(1));
        assert(inner.skip(1) =~~= tokens_of(rest));
        assert(seq![s[0]] + t.skip(1) =~= t);
        assert(tokens_of(s) =~~= seq![t] + tokens_of(rest));
    }
}

proof fn lemma_var_no_space(s: Seq<u8>)
    requires
        spec_valid_var(s),
    ensures
        no_space(s),
{
    assert forall|i: int| 0 <= i < s.len() implies !is_space(s[i]) by {
        if i > 0 {
            assert(is_digit(s[i]));
        }
    }
}

proof fn lemma_label_no_space(s: Seq<u8>)
    requires
        spec_valid_label(s),
    ensures
        no_space(s),
{
    assert forall|i: int| 0 <= i < s.len() implies !is_space(s[i]) by {
        if i > 0 {
            assert(is_digit(s[i]));
        }
    }
}

/// A label-defining token is none of the four keywords: it ends in a colon.
proof fn lemma_label_token_not_kw(t: Seq<u8>)
    requires
        t.len() >= 1,
        t[t.len() - 1] == 58,
    ensures
        t != kw_inc(),
        t != kw_dec(),
        t != kw_jmp(),
        t != kw_nop(),
{
    if t == kw_inc() {
        assert(t[2] == 99);
    }
    if t == kw_dec() {
        assert(t[2] == 99);
    }
    if t == kw_jmp() {
        assert(t[2] == 112);
    }
    if t == kw_nop() {
        assert(t[2] == 112);
    }
}

proof fn lemma_label_token_of(l: Seq<u8>)
    requires
        spec_valid_label(l),
    ensures
        crate::lex::spec_label_token(l + seq![58u8]),
        crate::lex::spec_strip_colon(l + seq![58u8]) == l,
        no_space(l + seq![58u8]),
{
    let lt = l + seq![58u8];
    assert(lt[lt.len() - 1] == 58);
    assert(lt[0] == l[0]);
    assert(forall|i: int| 0 <= i < l.len() ==> lt[i] == l[i]);
    assert(crate::lex::spec_strip_colon(lt) =~= l);
    lemma_label_no_space(l);
    assert forall|i: int| 0 <= i < lt.len() implies !is_space(lt[i]) by {
        if i < l.len() {
            assert(lt[i] == l[i]);
        }
    }
}

/// Parsing the canonical serialization of a well-formed instruction yields
/// that instruction back.
pub proof fn lemma_parse_serialize(i: SpecInstr)
    requires
        wf_instr(i),
    ensures
        spec_parse_line(spec_ser_instr(i)) == Some(i),
{
    let line = spec_ser_instr(i);
    let ob = spec_ser_op(i.op);
    // the tokens of the operation part
    let opts = match i.op {
        SpecOp::Inc(v) => seq![kw_inc(), v],
        SpecOp::Dec(v) => seq![kw_dec(), v],
        SpecOp::Jmp(v, t) => seq![kw_jmp(), v, t],
        SpecOp::Nop => seq![kw_nop()],
    };
    assert(tokens_of(ob) == opts) by {
        match i.op {
            SpecOp::Inc(v) => {
                lemma_var_no_space(v);
                lemma_tokens_single(v);
                lemma_tokens_cat(kw_inc(), v);
                assert(kw_inc() + seq![32u8] + v == ob);
                assert(seq![kw_inc()] + seq![v] =~~= opts);
            },
            SpecOp::Dec(v) => {
                lemma_var_no_space(v);
                lemma_tokens_single(v);
                lemma_tokens_cat(kw_dec(), v);
                assert(seq![kw_dec()] + seq![v] =~~= opts);
            },
            SpecOp::Jmp(v, t) => {
                lemma_var_no_space(v);
                lemma_label_no_space(t);
                lemma_tokens_single(t);
                lemma_tokens_cat(v, t);
                lemma_tokens_cat(kw_jmp(), v + seq![32u8] + t);
                assert(kw_jmp() + seq![32u8] + (v + seq![32u8] + t) =~= ob);
                assert(seq![kw_jmp()] + (seq![v] + seq![t]) =~~= opts);
            },
            SpecOp::Nop => {
                lemma_tokens_single(kw_nop());
            },
        }
    }
    match i.label {
        None => {
            assert(tokens_of(line) == opts);
            match i.op {
                SpecOp::Inc(v) => {
                    lemma_label_token_not_kw(seq![58u8]);
                    assert(spec_parse_tokens(opts) == Some(i));
                },
                SpecOp::Dec(v) => {
                    assert(kw_dec() != kw_inc()) by {
                        assert(kw_dec()[0] == 100 && kw_inc()[0] == 105);
                    }
                    assert(spec_parse_tokens(opts) == Some(i));
                },
                SpecOp::Jmp(v, t) => {
                    assert(spec_parse_tokens(opts) == Some(i));
                },
                SpecOp::Nop => {
                    assert(spec_parse_tokens(opts) == Some(i));
                },
            }
        },
        Some(l) => {
            let lt = l + seq![58u8];
            lemma_label_token_of(l);
            lemma_label_token_not_kw(lt);
            assert(line =~= lt + seq![32u8] + ob);
            lemma_tokens_cat(lt, ob);
            let ts = tokens_of(line);
            assert(ts == seq![lt] + opts);
            match i.op {
                SpecOp::Inc(v) => {
                    assert(ts.len() == 3);
                    assert(ts[0] == lt && ts[1] == kw_inc() && ts[2] == v);
                    assert(spec_parse_tokens(ts) == Some(i));
                },
                SpecOp::Dec(v) => {
                    assert(ts.len() == 3);
                    assert(ts[0] == lt && ts[1] == kw_dec() && ts[2] == v);
                    assert(kw_dec() != kw_inc()) by {
                        assert(kw_dec()[0] == 100 && kw_inc()[0] == 105);
                    }
                    assert(spec_parse_tokens(ts) == Some(i));
                },
                SpecOp::Jmp(v, t) => {
                    assert(ts.len() == 4);
                    assert(ts[0] == lt && ts[1] == kw_jmp() && ts[2] == v && ts[3] == t);
                    assert(spec_parse_tokens(ts) == Some(i));
                },
                SpecOp::Nop => {
                    assert(ts.len() == 2);
                    assert(ts[0] == lt && ts[1] == kw_nop());
                    assert(spec_parse_tokens(ts) == Some(i));
                },
            }
        },
    }
}

/// Round trip: a canonical line — the serialization of some well-formed
/// instruction — parses, and re-serializing the parse yields the line,
/// byte for byte.
pub proof fn lemma_round_trip(line: Seq<u8>)
    requires
        exists|i: SpecInstr| wf_instr(i) && line == spec_ser_instr(i),
    ensures
        spec_parse_line(line) is Some,
        spec_ser_instr(spec_parse_line(line)->Some_0) == line,
{
    let i = choose|i: SpecInstr| wf_instr(i) && line == spec_ser_instr(i);
    lemma_parse_serialize(i);
}

/// Any parsed line re-serializes to a canonical line that parses to the very
/// same instruction: serialization normalises whitespace and nothing else.
pub proof fn lemma_reserialize_parses(line: Seq<u8>)
    requires
        spec_parse_line(line) is Some,
    ensures
        spec_parse_line(spec_ser_instr(spec_parse_line(line)->Some_0)) == spec_parse_line(line),
{
    crate::parse::lemma_parse_wf(line);
    lemma_parse_serialize(spec_parse_line(line)->Some_0);
}

fn push_bytes(out: &mut Vec<u8>, s: &Vec<u8>)
    ensures
        final(out)@ == old(out)@ + s@,
{
    let mut i: usize = 0;
    while i < s.len()
        invariant
            i <= s.len(),
            out@ == old(out)@ + s@.take(i as int),
        decreases s.len() - i,
    {
        out.push(s[i]);
        assert(out@ =~= old(out)@ + s@.take(i + 1 as int));
        i = i + 1;
    }
    assert(out@ =~= old(out)@ + s@);
}

/// Serializes one instruction to its canonical bytes.
pub fn serialize_instr(ins: &Instruction) -> (out: Vec<u8>)
    ensures
        out@ == spec_ser_instr(ins@),
{
    let mut out: Vec<u8> = Vec::new();
    match &ins.label {
        Some(l) => {
            push_bytes(&mut out, l);
            out.push(58);
            out.push(32);
        },
        None => {},
    }
    match &ins.op {
        Op::Inc(v) => {
            out.push(105);
            out.push(110);
            out.push(99);
            out.push(32);
            push_bytes(&mut out, v);
        },
        Op::Dec(v) => {
            out.push(100);
            out.push(101);
            out.push(99);
            out.push(32);
            push_bytes(&mut out, v);
        },
        Op::Jmp(v, t) => {
            out.push(106);
            out.push(109);
            out.push(112);
            out.push(32);
            push_bytes(&mut out, v);
            out.push(32);
            push_bytes(&mut out, t);
        },
        Op::Nop => {
            out.push(110);
            out.push(111);
            out.push(112);
        },
    }
    assert(out@ =~= spec_ser_instr(ins@));
    out
}

/// Serializes a whole program, one canonical line per instruction.
pub fn serialize_program(prog: &Vec<Instruction>) -> (out: Vec<Vec<u8>>)
    ensures
        out@.len() == prog@.len(),
        forall|i: int| 0 <= i < prog@.len() ==> #[trigger] out@[i]@ == spec_ser_instr(prog@[i]@),
{
    let mut out: Vec<Vec<u8>> = Vec::new();
    let mut i: usize = 0;
    while i < prog.len()
        invariant
            i <= prog.len(),
            out@.len() == i,
            forall|j: int| 0 <= j < i ==> #[trigger] out@[j]@ == spec_ser_instr(prog@[j]@),
        decreases prog.len() - i,
    {
        let line = serialize_instr(&prog[i]);
        out.push(line);
        i = i + 1;
    }
    out
}

} // verus!
