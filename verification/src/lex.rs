//! Byte-level lexical layer: character classes, identifier validation and
//! whitespace tokenization of a single source line.
//!
//! Identifiers follow the language's two disjoint namespaces: a variable name
//! is the bare accumulator `Y` (which never takes a subscript) or `X`/`Z`
//! with an optional numeric subscript; a label name starts with any other
//! letter and may carry a numeric subscript. A label-defining token is a
//! label name followed by `:`.

use vstd::prelude::*;

verus! {

/// Bytes the tokenizer treats as whitespace: space and horizontal tab.
pub open spec fn is_space(b: u8) -> bool {
    b == 32 || b == 9
}

/// ASCII decimal digit `0`..`9`.
pub open spec fn is_digit(b: u8) -> bool {
    48 <= b && b <= 57
}

/// ASCII letter `A`..`Z` or `a`..`z`.
pub open spec fn is_alpha(b: u8) -> bool {
    (65 <= b && b <= 90) || (97 <= b && b <= 122)
}

/// Every byte of `s` in `start..end` is a digit.
pub open spec fn digits_range(s: Seq<u8>, start: int, end: int) -> bool {
    forall|i: int| start <= i < end && 0 <= i < s.len() ==> is_digit(s[i])
}

/// A variable name: the bare accumulator `Y` (byte 89, never subscripted),
/// or `X`/`Z` (bytes 88, 90) optionally followed by a numeric subscript.
pub open spec fn spec_valid_var(s: Seq<u8>) -> bool {
    &&& s.len() >= 1
    &&& if s[0] == 89 {
        s.len() == 1
    } else {
        (s[0] == 88 || s[0] == 90) && digits_range(s, 1, s.len() as int)
    }
}

/// A label name: a letter other than `X`, `Y`, `Z`, optionally followed by a
/// numeric subscript.
pub open spec fn spec_valid_label(s: Seq<u8>) -> bool {
    &&& s.len() >= 1
    &&& is_alpha(s[0])
    &&& s[0] != 88 && s[0] != 89 && s[0] != 90
    &&& digits_range(s, 1, s.len() as int)
}

/// A label-defining token: a valid label name followed by `:` (byte 58).
pub open spec fn spec_label_token(s: Seq<u8>) -> bool {
    &&& s.len() >= 2
    &&& s[s.len() - 1] == 58
    &&& is_alpha(s[0])
    &&& s[0] != 88 && s[0] != 89 && s[0] != 90
    &&& digits_range(s, 1, s.len() - 1)
}

/// The name carried by a label-defining token: everything before the colon.
pub open spec fn spec_strip_colon(s: Seq<u8>) -> Seq<u8> {
    s.take(s.len() - 1)
}

/// A label-defining token strips to a valid label name.
pub proof fn lemma_label_token_strip(s: Seq<u8>)
    requires
        spec_label_token(s),
    ensures
        spec_valid_label(spec_strip_colon(s)),
{
    let t = spec_strip_colon(s);
    assert(t.len() == s.len() - 1);
    assert(t[0] == s[0]);
    assert forall|i: int| 1 <= i < t.len() implies is_digit(t[i]) by {
        assert(t[i] == s[i]);
    }
}

fn digits_check(s: &Vec<u8>, start: usize, end: usize) -> (r: bool)
    requires
        end <= s.len(),
    ensures
        r == digits_range(s@, start as int, end as int),
{
    let mut i: usize = start;
    while i < end
        invariant
            start <= i,
            end <= s.len(),
            i <= end || i == start,
            digits_range(s@, start as int, i as int),
        decreases end - i,
    {
        let b = s[i];
        if !(48 <= b && b <= 57) {
            assert(!is_digit(s@[i as int]));
            return false;
        }
        i = i + 1;
    }
    true
}

/// Decides whether `s` is a valid variable name.
pub fn valid_var(s: &Vec<u8>) -> (r: bool)
    ensures
        r == spec_valid_var(s@),
{
    if s.len() == 0 {
        return false;
    }
    let b = s[0];
    if b == 89 {
        s.len() == 1
    } else {
        (b == 88 || b == 90) && digits_check(s, 1, s.len())
    }
}

/// Decides whether `s` is a valid label name.
pub fn valid_label(s: &Vec<u8>) -> (r: bool)
    ensures
        r == spec_valid_label(s@),
{
    if s.len() == 0 {
        return false;
    }
    let b = s[0];
    ((65 <= b && b <= 90) || (97 <= b && b <= 122)) && b != 88 && b != 89 && b != 90
        && digits_check(s, 1, s.len())
}

/// Decides whether `s` is a label-defining token (`<label>:`).
pub fn label_token(s: &Vec<u8>) -> (r: bool)
    ensures
        r == spec_label_token(s@),
{
    if s.len() < 2 {
        return false;
    }
    if s[s.len() - 1] != 58 {
        return false;
    }
    let b = s[0];
    ((65 <= b && b <= 90) || (97 <= b && b <= 122)) && b != 88 && b != 89 && b != 90
        && digits_check(s, 1, s.len() - 1)
}

/// Copies the bytes of a token.
pub fn copy_bytes(s: &Vec<u8>) -> (r: Vec<u8>)
    ensures
        r@ == s@,
{
    let mut r: Vec<u8> = Vec::new();
    let mut i: usize = 0;
    while i < s.len()
        invariant
            i <= s.len(),
            r@ == s@.take(i as int),
        decreases s.len() - i,
    {
        r.push(s[i]);
        assert(r@ =~= s@.take(i + 1 as int));
        i = i + 1;
    }
    assert(r@ =~= s@);
    r
}

/// Copies everything before the final byte of a token (its trailing colon).
pub fn strip_colon(s: &Vec<u8>) -> (r: Vec<u8>)
    requires
        s.len() >= 1,
    ensures
        r@ == spec_strip_colon(s@),
{
    let mut r: Vec<u8> = Vec::new();
    let mut i: usize = 0;
    while i < s.len() - 1
        invariant
            s.len() >= 1,
            i <= s.len() - 1,
            r@ == s@.take(i as int),
        decreases s.len() - i,
    {
        r.push(s[i]);
        assert(r@ =~= s@.take(i + 1 as int));
        i = i + 1;
    }
    r
}

/// Decides whether two byte strings are equal.
pub fn bytes_eq(a: &Vec<u8>, b: &Vec<u8>) -> (r: bool)
    ensures
        r == (a@ == b@),
{
    if a.len() != b.len() {
        return false;
    }
    let mut i: usize = 0;
    while i < a.len()
        invariant
            a.len() == b.len(),
            i <= a.len(),
            forall|j: int| 0 <= j < i ==> a@[j] == b@[j],
        decreases a.len() - i,
    {
        if a[i] != b[i] {
            return false;
        }
        i = i + 1;
    }
    assert(a@ =~= b@);
    true
}

/// The whitespace-separated tokens of a line, in order.
pub open spec fn tokens_of(s: Seq<u8>) -> Seq<Seq<u8>>
    decreases s.len(),
{
    if s.len() == 0 {
        Seq::empty()
    } else {
        let rest = tokens_of(s.skip(1));
        if is_space(s[0]) {
            rest
        } else if s.len() == 1 || is_space(s[1]) {
            seq![seq![s[0]]] + rest
        } else {
            seq![seq![s[0]] + rest[0]] + rest.skip(1)
        }
    }
}

/// A line that starts with a non-space byte has at least one token.
pub proof fn lemma_tokens_nonempty(s: Seq<u8>)
    requires
        s.len() > 0,
        !is_space(s[0]),
    ensures
        tokens_of(s).len() >= 1,
{
}

fn tokenize_from(line: &Vec<u8>, i: usize) -> (r: Vec<Vec<u8>>)
    requires
        i <= line.len(),
    ensures
        r@.map_values(|t: Vec<u8>| t@) == tokens_of(line@.skip(i as int)),
    decreases line.len() - i,
{
    if i >= line.len() {
        let r: Vec<Vec<u8>> = Vec::new();
        assert(r@.map_values(|t: Vec<u8>| t@) =~= tokens_of(line@.skip(i as int)));
        return r;
    }
    let b = line[i];
    let mut rest = tokenize_from(line, i + 1);
    let ghost tail = line@.skip(i as int);
    assert(tail.skip(1) =~= line@.skip(i + 1 as int));
    assert(tail[0] == b);
    if 32 == b || 9 == b {
        return rest;
    }
    if i + 1 == line.len() || 32 == line[i + 1] || 9 == line[i + 1] {
        assert(i + 1 < line.len() ==> tail[1] == line@[i + 1 as int]);
        let mut tok: Vec<u8> = Vec::new();
        tok.push(b);
        rest.insert(0, tok);
        assert(rest@.map_values(|t: Vec<u8>| t@) =~~= tokens_of(line@.skip(i as int)));
        return rest;
    }
    assert(tail[1] == line@[i + 1 as int]);
    assert(!is_space(tail.skip(1)[0]));
    proof {
        lemma_tokens_nonempty(tail.skip(1));
    }
    assert(rest.len() >= 1);
    let mut first = rest.remove(0);
    first.insert(0, b);
    assert(first@ =~= seq![tail[0]] + tokens_of(tail.skip(1))[0]);
    rest.insert(0, first);
    assert(rest@.map_values(|t: Vec<u8>| t@) =~~= tokens_of(line@.skip(i as int)));
    rest
}

/// Splits a line into its whitespace-separated tokens.
pub fn tokenize(line: &Vec<u8>) -> (r: Vec<Vec<u8>>)
    ensures
        r@.map_values(|t: Vec<u8>| t@) == tokens_of(line@),
{
    let r = tokenize_from(line, 0);
    assert(line@.skip(0) =~= line@);
    r
}

} // verus!
