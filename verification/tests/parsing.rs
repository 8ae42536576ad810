use counter_machine::parse::{parse_program, SyntaxError};
use counter_machine::serial::{serialize_instr, serialize_program};

fn lines(v: &[&str]) -> Vec<Vec<u8>> {
    let mut out: Vec<Vec<u8>> = Vec::new();
    for s in v {
        out.push(s.as_bytes().to_vec());
    }
    out
}

fn parse_err(v: &[&str]) -> SyntaxError {
    match parse_program(&lines(v)) {
        Ok(_) => panic!("expected a syntax error"),
        Err(e) => e,
    }
}

#[test]
fn arrow_form_is_rejected() {
    // the arrow surface syntax does not belong to the token-keyword grammar
    let e = parse_err(&["X1 <- ignored"]);
    assert_eq!(e.line, 1);
    assert_eq!(e.text, b"X1 <- ignored".to_vec());
}

#[test]
fn keyword_forms_parse() {
    let prog = parse_program(&lines(&[
        "inc Z1",
        "dec Y",
        "A: inc Y",
        "B12: dec X3",
        "jmp X1 A",
        "C: jmp Z A",
        "nop",
        "A: nop",
    ]))
    .unwrap_or_else(|_| panic!("expected a parse"));
    assert_eq!(prog.len(), 8);
}

#[test]
fn single_token_line_is_a_nop_placeholder() {
    let prog = parse_program(&lines(&["anything"])).unwrap_or_else(|_| panic!("expected a parse"));
    assert_eq!(prog.len(), 1);
    assert_eq!(serialize_instr(&prog[0]), b"nop".to_vec());
}

#[test]
fn lone_label_token_is_an_unlabelled_placeholder() {
    // a single token is always the no-op placeholder, its text ignored;
    // attaching a label to a nop takes the two-token form `A: nop`
    let prog = parse_program(&lines(&["A:"])).unwrap_or_else(|_| panic!("expected a parse"));
    assert_eq!(serialize_instr(&prog[0]), b"nop".to_vec());
}

#[test]
fn labelled_line_with_placeholder_is_a_labelled_nop() {
    let prog = parse_program(&lines(&["A7: nop"])).unwrap_or_else(|_| panic!("expected a parse"));
    assert_eq!(serialize_instr(&prog[0]), b"A7: nop".to_vec());
}

#[test]
fn jmp_without_target_is_rejected() {
    let e = parse_err(&["jmp X1"]);
    assert_eq!(e.line, 1);
}

#[test]
fn labelled_jmp_without_target_is_rejected() {
    assert_eq!(parse_err(&["A: jmp X1"]).line, 1);
}

#[test]
fn variable_namespace_letters_cannot_label() {
    // X, Y, Z start variable names, never labels
    assert_eq!(parse_err(&["X: inc Y"]).line, 1);
    assert_eq!(parse_err(&["Y1: inc Y"]).line, 1);
    assert_eq!(parse_err(&["jmp X1 Y"]).line, 1);
}

#[test]
fn label_namespace_letters_cannot_be_variables() {
    assert_eq!(parse_err(&["inc A"]).line, 1);
    assert_eq!(parse_err(&["dec q7"]).line, 1);
}

#[test]
fn subscripts_are_digits_or_empty() {
    assert!(parse_program(&lines(&["inc X", "inc X0", "inc Y", "dec Z42"])).is_ok());
    assert_eq!(parse_err(&["inc X1a"]).line, 1);
    assert_eq!(parse_err(&["A1b: inc Y"]).line, 1);
}

#[test]
fn output_variable_takes_no_subscript() {
    // Y is the one distinguished accumulator: Y0, Y1, ... are no variables
    assert_eq!(parse_err(&["inc Y2"]).line, 1);
    assert_eq!(parse_err(&["inc Y0"]).line, 1);
    assert_eq!(parse_err(&["dec Y1"]).line, 1);
    assert_eq!(parse_err(&["jmp Y2 A"]).line, 1);
    assert_eq!(parse_err(&["A: inc Y7"]).line, 1);
    assert!(parse_program(&lines(&["inc Y", "dec Y", "jmp Y A"])).is_ok());
}

#[test]
fn too_many_tokens_rejected() {
    assert_eq!(parse_err(&["A: jmp X1 B extra"]).line, 1);
    assert_eq!(parse_err(&["inc Y now"]).line, 1);
}

#[test]
fn empty_line_is_rejected() {
    assert_eq!(parse_err(&[""]).line, 1);
}

#[test]
fn first_bad_line_is_reported() {
    let e = parse_err(&["inc Y", "bad line here!", "dec Y"]);
    assert_eq!(e.line, 2);
    assert_eq!(e.text, b"bad line here!".to_vec());
}

#[test]
fn round_trip_canonical_program() {
    let src = [
        "A: inc Y",
        "dec X1",
        "jmp X1 A",
        "B: nop",
        "nop",
        "C: jmp Z1 B",
        "inc X",
        "W12: dec Z3",
    ];
    let input = lines(&src);
    let prog = parse_program(&input).unwrap_or_else(|_| panic!("expected a parse"));
    let out = serialize_program(&prog);
    assert_eq!(out, input);
}

#[test]
fn whitespace_is_normalised_to_canonical_form() {
    let prog = parse_program(&lines(&["  A:   inc    Y  "]))
        .unwrap_or_else(|_| panic!("expected a parse"));
    assert_eq!(serialize_instr(&prog[0]), b"A: inc Y".to_vec());
}
