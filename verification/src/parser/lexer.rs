//! Lexical structure of a source line, as functions on bytes.
//!
//! A `;` starts a comment that runs to the end of the line. What stands
//! before it is split at blanks into tokens. A token is a mnemonic (`ld`,
//! `st`, `in`, `out`, `add`, `sub`, `mul`, `div`, `mod`, `cmp`, `jmp`, `jlt`,
//! `jeq`, `jgt`, `end`), an operand, or a label definition. An operand is a
//! decimal integer with an optional `-`, a single lowercase letter that names
//! a memory cell, or, after a jump, a name that starts with a lowercase
//! letter and refers to a label.

use vstd::prelude::*;
use crate::program::{Opcode, Operand, OperandView};

verus! {

/// Blank bytes: space, tab, line feed, vertical tab, form feed, carriage
/// return.
pub open spec fn is_space(b: u8) -> bool {
    b == 32 || (9 <= b && b <= 13)
}

/// The decimal digits `0` to `9`.
pub open spec fn is_digit(b: u8) -> bool {
    '0' as u8 <= b && b <= '9' as u8
}

/// The lowercase letters `a` to `z`.
pub open spec fn is_lower(b: u8) -> bool {
    'a' as u8 <= b && b <= 'z' as u8
}

/// Length of the longest prefix of `s` in which no byte satisfies `stop`.
pub open spec fn prefix_len(s: Seq<u8>, stop: spec_fn(u8) -> bool) -> nat
    decreases s.len(),
{
    if s.len() == 0 || stop(s[0]) {
        0
    } else {
        1 + prefix_len(s.drop_first(), stop)
    }
}

/// `prefix_len` stays within the sequence, no byte before it satisfies
/// `stop`, and the byte at it, if there is one, does.
pub proof fn lemma_prefix_len(s: Seq<u8>, stop: spec_fn(u8) -> bool)
    ensures
        prefix_len(s, stop) <= s.len(),
        forall|j: int| 0 <= j < prefix_len(s, stop) ==> !stop(#[trigger] s[j]),
        prefix_len(s, stop) < s.len() ==> stop(s[prefix_len(s, stop) as int]),
    decreases s.len(),
{
    if s.len() == 0 || stop(s[0]) {
    } else {
        let rest = s.drop_first();
        lemma_prefix_len(rest, stop);
        assert forall|j: int| 0 <= j < prefix_len(s, stop) implies !stop(#[trigger] s[j]) by {
            if j > 0 {
                assert(s[j] == rest[j - 1]);
            }
        }
        if prefix_len(s, stop) < s.len() {
            assert(s[prefix_len(s, stop) as int] == rest[prefix_len(rest, stop) as int]);
        }
    }
}

/// An index with no stopping byte before it and one at it (or the end of
/// the sequence) is the `prefix_len`.
pub proof fn lemma_prefix_len_is(s: Seq<u8>, stop: spec_fn(u8) -> bool, n: int)
    requires
        0 <= n <= s.len(),
        forall|j: int| 0 <= j < n ==> !stop(#[trigger] s[j]),
        n < s.len() ==> stop(s[n]),
    ensures
        prefix_len(s, stop) == n,
    decreases s.len(),
{
    if s.len() == 0 || stop(s[0]) {
        if n > 0 {
            assert(!stop(s[0]));
        }
    } else {
        let rest = s.drop_first();
        assert(n > 0);
        assert forall|j: int| 0 <= j < n - 1 implies !stop(#[trigger] rest[j]) by {
            assert(rest[j] == s[j + 1]);
        }
        if n - 1 < rest.len() {
            assert(rest[n - 1] == s[n]);
        }
        lemma_prefix_len_is(rest, stop, n - 1);
    }
}

/// Number of bytes of `line` before its comment: a comment starts at the
/// first `;` and runs to the end of the line.
pub open spec fn code_len(line: Seq<u8>) -> nat {
    prefix_len(line, |b: u8| b == ';' as u8)
}

/// The part of `line` before its comment.
pub open spec fn code(line: Seq<u8>) -> Seq<u8> {
    line.take(code_len(line) as int)
}

/// Number of bytes of `s` before its first blank.
pub open spec fn word_len(s: Seq<u8>) -> nat {
    prefix_len(s, |b: u8| is_space(b))
}

/// The tokens of `s`: its maximal runs of non-blank bytes, in order.
pub open spec fn tokens(s: Seq<u8>) -> Seq<Seq<u8>>
    decreases s.len(),
    via tokens_decreases
{
    if s.len() == 0 {
        Seq::empty()
    } else if is_space(s[0]) {
        tokens(s.drop_first())
    } else {
        seq![s.take(word_len(s) as int)] + tokens(s.skip(word_len(s) as int))
    }
}

#[via_fn]
proof fn tokens_decreases(s: Seq<u8>) {
    if s.len() > 0 && !is_space(s[0]) {
        lemma_prefix_len(s, |b: u8| is_space(b));
    }
}

/// Number of bytes of `line` before its comment.
pub fn find_comment(line: &Vec<u8>) -> (n: usize)
    ensures
        n == code_len(line@),
        n <= line.len(),
{
    let mut i: usize = 0;
    while i < line.len() && line[i] != ';' as u8
        invariant
            i <= line.len(),
            forall|j: int| 0 <= j < i ==> line@[j] != ';' as u8,
        decreases line.len() - i,
    {
        i += 1;
    }
    proof {
        lemma_prefix_len_is(line@, |b: u8| b == ';' as u8, i as int);
    }
    i
}

/// Whether `b` is a blank byte.
pub fn is_space_byte(b: u8) -> (r: bool)
    ensures
        r == is_space(b),
{
    b == 32 || (9 <= b && b <= 13)
}

/// The sequence of the values of the byte strings in `v`.
pub open spec fn views(v: Seq<Vec<u8>>) -> Seq<Seq<u8>> {
    Seq::new(v.len(), |i: int| v[i]@)
}

/// A copy of the bytes of `text` from `from` up to `to`.
pub(crate) fn copy_range(text: &Vec<u8>, from: usize, to: usize) -> (r: Vec<u8>)
    requires
        from <= to <= text.len(),
    ensures
        r@ == text@.subrange(from as int, to as int),
{
    let mut r: Vec<u8> = Vec::new();
    let mut i: usize = from;
    while i < to
        invariant
            from <= i <= to,
            to <= text.len(),
            r@ == text@.subrange(from as int, i as int),
        decreases to - i,
    {
        r.push(text[i]);
        assert(r@ =~= text@.subrange(from as int, i + 1));
        i += 1;
    }
    r
}

/// Splits a line into its tokens, leaving out the comment.
pub fn tokenize(text: &Vec<u8>) -> (out: Vec<Vec<u8>>)
    ensures
        views(out@) == tokens(code(text@)),
{
    let end = find_comment(text);
    let ghost s = text@.take(end as int);
    let mut out: Vec<Vec<u8>> = Vec::new();
    let mut i: usize = 0;
    assert(s.skip(0) =~= s);
    assert(views(out@) + tokens(s.skip(0)) =~= tokens(s));
    while i < end
        invariant
            i <= end <= text.len(),
            s == text@.take(end as int),
            tokens(s) == views(out@) + tokens(s.skip(i as int)),
        decreases end - i,
    {
        let ghost rest = s.skip(i as int);
        if is_space_byte(text[i]) {
            assert(rest.drop_first() =~= s.skip(i + 1));
            i += 1;
        } else {
            let start = i;
            while i < end && !is_space_byte(text[i])
                invariant
                    start <= i <= end <= text.len(),
                    s == text@.take(end as int),
                    forall|j: int| start <= j < i ==> !is_space(s[j]),
                decreases end - i,
            {
                i += 1;
            }
            let token = copy_range(text, start, i);
            proof {
                assert forall|j: int| 0 <= j < i - start implies !is_space(#[trigger] rest[j]) by {
                    assert(rest[j] == s[start + j]);
                }
                lemma_prefix_len_is(rest, |b: u8| is_space(b), i - start);
                assert(rest.take(i - start) =~= token@);
                assert(rest.skip(i - start) =~= s.skip(i as int));
                assert(views(out@.push(token)) =~= views(out@).push(token@));
                assert(views(out@).push(token@) + tokens(s.skip(i as int)) =~= views(out@)
                    + (seq![token@] + tokens(s.skip(i as int))));
            }
            out.push(token);
        }
    }
    assert(s.skip(end as int) =~= Seq::<u8>::empty());
    assert(views(out@) + Seq::<Seq<u8>>::empty() =~= views(out@));
    out
}

/// The two-letter word `ab` as bytes.
pub open spec fn word2(a: char, b: char) -> Seq<u8> {
    seq![a as u8, b as u8]
}

/// The three-letter word `abc` as bytes.
pub open spec fn word3(a: char, b: char, c: char) -> Seq<u8> {
    seq![a as u8, b as u8, c as u8]
}

/// The mnemonic that is written for an opcode.
pub open spec fn mnemonic_of(opcode: Opcode) -> Seq<u8> {
    match opcode {
        Opcode::Load => word2('l', 'd'),
        Opcode::Store => word2('s', 't'),
        Opcode::Input => word2('i', 'n'),
        Opcode::Output => word3('o', 'u', 't'),
        Opcode::Add => word3('a', 'd', 'd'),
        Opcode::Sub => word3('s', 'u', 'b'),
        Opcode::Mul => word3('m', 'u', 'l'),
        Opcode::Div => word3('d', 'i', 'v'),
        Opcode::Mod => word3('m', 'o', 'd'),
        Opcode::Compare => word3('c', 'm', 'p'),
        Opcode::Jump => word3('j', 'm', 'p'),
        Opcode::JumpIfLess => word3('j', 'l', 't'),
        Opcode::JumpIfEqual => word3('j', 'e', 'q'),
        Opcode::JumpIfGreater => word3('j', 'g', 't'),
        Opcode::End => word3('e', 'n', 'd'),
    }
}

/// The opcode that a token names: the one whose mnemonic the token is,
/// letter for letter.
pub open spec fn opcode_of(t: Seq<u8>) -> Option<Opcode> {
    if exists|opcode: Opcode| mnemonic_of(opcode) == t {
        Some(choose|opcode: Opcode| mnemonic_of(opcode) == t)
    } else {
        None
    }
}

/// A token of two bytes is the word made of those bytes, and a word of two
/// letters is no token of another length.
proof fn lemma_word2(t: Seq<u8>, a: char, b: char)
    ensures
        (t == word2(a, b)) <==> (t.len() == 2 && t[0] == a as u8 && t[1] == b as u8),
{
    if t.len() == 2 && t[0] == a as u8 && t[1] == b as u8 {
        assert(t =~= word2(a, b));
    }
}

/// The same for words of three letters.
proof fn lemma_word3(t: Seq<u8>, a: char, b: char, c: char)
    ensures
        (t == word3(a, b, c)) <==> (t.len() == 3 && t[0] == a as u8 && t[1] == b as u8 && t[2]
            == c as u8),
{
    if t.len() == 3 && t[0] == a as u8 && t[1] == b as u8 && t[2] == c as u8 {
        assert(t =~= word3(a, b, c));
    }
}

/// What it takes for a token to be the mnemonic of an opcode, byte by byte.
proof fn lemma_mnemonic_bytes(t: Seq<u8>, opcode: Opcode)
    ensures
        (mnemonic_of(opcode) == t) <==> (match opcode {
            Opcode::Load => t.len() == 2 && t[0] == 'l' as u8 && t[1] == 'd' as u8,
            Opcode::Store => t.len() == 2 && t[0] == 's' as u8 && t[1] == 't' as u8,
            Opcode::Input => t.len() == 2 && t[0] == 'i' as u8 && t[1] == 'n' as u8,
            Opcode::Output => t.len() == 3 && t[0] == 'o' as u8 && t[1] == 'u' as u8 && t[2]
                == 't' as u8,
            Opcode::Add => t.len() == 3 && t[0] == 'a' as u8 && t[1] == 'd' as u8 && t[2]
                == 'd' as u8,
            Opcode::Sub => t.len() == 3 && t[0] == 's' as u8 && t[1] == 'u' as u8 && t[2]
                == 'b' as u8,
            Opcode::Mul => t.len() == 3 && t[0] == 'm' as u8 && t[1] == 'u' as u8 && t[2]
                == 'l' as u8,
            Opcode::Div => t.len() == 3 && t[0] == 'd' as u8 && t[1] == 'i' as u8 && t[2]
                == 'v' as u8,
            Opcode::Mod => t.len() == 3 && t[0] == 'm' as u8 && t[1] == 'o' as u8 && t[2]
                == 'd' as u8,
            Opcode::Compare => t.len() == 3 && t[0] == 'c' as u8 && t[1] == 'm' as u8 && t[2]
                == 'p' as u8,
            Opcode::Jump => t.len() == 3 && t[0] == 'j' as u8 && t[1] == 'm' as u8 && t[2]
                == 'p' as u8,
            Opcode::JumpIfLess => t.len() == 3 && t[0] == 'j' as u8 && t[1] == 'l' as u8 && t[2]
                == 't' as u8,
            Opcode::JumpIfEqual => t.len() == 3 && t[0] == 'j' as u8 && t[1] == 'e' as u8 && t[2]
                == 'q' as u8,
            Opcode::JumpIfGreater => t.len() == 3 && t[0] == 'j' as u8 && t[1] == 'g' as u8
                && t[2] == 't' as u8,
            Opcode::End => t.len() == 3 && t[0] == 'e' as u8 && t[1] == 'n' as u8 && t[2]
                == 'd' as u8,
        }),
{
    match opcode {
        Opcode::Load => lemma_word2(t, 'l', 'd'),
        Opcode::Store => lemma_word2(t, 's', 't'),
        Opcode::Input => lemma_word2(t, 'i', 'n'),
        Opcode::Output => lemma_word3(t, 'o', 'u', 't'),
        Opcode::Add => lemma_word3(t, 'a', 'd', 'd'),
        Opcode::Sub => lemma_word3(t, 's', 'u', 'b'),
        Opcode::Mul => lemma_word3(t, 'm', 'u', 'l'),
        Opcode::Div => lemma_word3(t, 'd', 'i', 'v'),
        Opcode::Mod => lemma_word3(t, 'm', 'o', 'd'),
        Opcode::Compare => lemma_word3(t, 'c', 'm', 'p'),
        Opcode::Jump => lemma_word3(t, 'j', 'm', 'p'),
        Opcode::JumpIfLess => lemma_word3(t, 'j', 'l', 't'),
        Opcode::JumpIfEqual => lemma_word3(t, 'j', 'e', 'q'),
        Opcode::JumpIfGreater => lemma_word3(t, 'j', 'g', 't'),
        Opcode::End => lemma_word3(t, 'e', 'n', 'd'),
    }
}

/// No two opcodes share a mnemonic, so reading a mnemonic back gives the
/// opcode it was written for.
pub proof fn lemma_mnemonic_round_trip(opcode: Opcode)
    ensures
        opcode_of(mnemonic_of(opcode)) == Some(opcode),
{
    let t = mnemonic_of(opcode);
    let found = choose|other: Opcode| mnemonic_of(other) == t;
    lemma_mnemonic_bytes(t, opcode);
    lemma_mnemonic_bytes(t, found);
}

/// The opcode that the token names, if it is a mnemonic.
pub fn read_mnemonic(t: &Vec<u8>) -> (r: Option<Opcode>)
    ensures
        r == opcode_of(t@),
{
    let r = if t.len() == 2 {
        let a = t[0];
        let b = t[1];
        if a == 'l' as u8 && b == 'd' as u8 {
            Some(Opcode::Load)
        } else if a == 's' as u8 && b == 't' as u8 {
            Some(Opcode::Store)
        } else if a == 'i' as u8 && b == 'n' as u8 {
            Some(Opcode::Input)
        } else {
            None
        }
    } else if t.len() == 3 {
        let a = t[0];
        let b = t[1];
        let c = t[2];
        if a == 'o' as u8 && b == 'u' as u8 && c == 't' as u8 {
            Some(Opcode::Output)
        } else if a == 'a' as u8 && b == 'd' as u8 && c == 'd' as u8 {
            Some(Opcode::Add)
        } else if a == 's' as u8 && b == 'u' as u8 && c == 'b' as u8 {
            Some(Opcode::Sub)
        } else if a == 'm' as u8 && b == 'u' as u8 && c == 'l' as u8 {
            Some(Opcode::Mul)
        } else if a == 'd' as u8 && b == 'i' as u8 && c == 'v' as u8 {
            Some(Opcode::Div)
        } else if a == 'm' as u8 && b == 'o' as u8 && c == 'd' as u8 {
            Some(Opcode::Mod)
        } else if a == 'c' as u8 && b == 'm' as u8 && c == 'p' as u8 {
            Some(Opcode::Compare)
        } else if a == 'j' as u8 && b == 'm' as u8 && c == 'p' as u8 {
            Some(Opcode::Jump)
        } else if a == 'j' as u8 && b == 'l' as u8 && c == 't' as u8 {
            Some(Opcode::JumpIfLess)
        } else if a == 'j' as u8 && b == 'e' as u8 && c == 'q' as u8 {
            Some(Opcode::JumpIfEqual)
        } else if a == 'j' as u8 && b == 'g' as u8 && c == 't' as u8 {
            Some(Opcode::JumpIfGreater)
        } else if a == 'e' as u8 && b == 'n' as u8 && c == 'd' as u8 {
            Some(Opcode::End)
        } else {
            None
        }
    } else {
        None
    };
    proof {
        assert forall|opcode: Opcode| (mnemonic_of(opcode) == t@) <==> r == Some(opcode) by {
            lemma_mnemonic_bytes(t@, opcode);
        }
        if let Some(opcode) = r {
            assert(mnemonic_of(opcode) == t@);
        }
    }
    r
}

/// The number that a string of decimal digits denotes.
pub open spec fn decimal(digits: Seq<u8>) -> nat
    decreases digits.len(),
{
    if digits.len() == 0 {
        0
    } else {
        decimal(digits.drop_last()) * 10 + (digits.last() - '0' as u8) as nat
    }
}

/// A string of one or more decimal digits.
pub open spec fn all_digits(s: Seq<u8>) -> bool {
    s.len() > 0 && forall|i: int| 0 <= i < s.len() ==> is_digit(#[trigger] s[i])
}

/// The integer that a token denotes: digits, or `-` followed by digits.
pub open spec fn number(t: Seq<u8>) -> Option<int> {
    if t.len() > 0 && t[0] == '-' as u8 {
        if all_digits(t.skip(1)) {
            Some(-(decimal(t.skip(1)) as int))
        } else {
            None
        }
    } else if all_digits(t) {
        Some(decimal(t) as int)
    } else {
        None
    }
}

/// The 32-bit integer that a token denotes, if it denotes an integer that
/// fits.
pub open spec fn immediate(t: Seq<u8>) -> Option<i32> {
    match number(t) {
        Some(n) => if i32::MIN <= n <= i32::MAX {
            Some(n as i32)
        } else {
            None
        },
        None => None,
    }
}

/// The memory cell that a lowercase letter names: `a` is cell 0, `z` is
/// cell 25.
pub open spec fn letter_cell(letter: u8) -> int {
    letter - 'a' as u8
}

/// The lowercase letter that names a memory cell.
pub open spec fn cell_letter(cell: int) -> u8 {
    ('a' as u8 + cell) as u8
}

/// The operand that a token denotes after `opcode`.
///
/// A token that starts with a digit or `-` is an immediate and must denote a
/// 32-bit integer. A token that starts with a lowercase letter names a label
/// after a jump opcode; after any other opcode it must be a single letter,
/// which names a memory cell. No other token is an operand.
pub open spec fn operand_of(opcode: Opcode, t: Seq<u8>) -> Option<OperandView> {
    if t.len() == 0 {
        None
    } else if is_digit(t[0]) || t[0] == '-' as u8 {
        match immediate(t) {
            Some(n) => Some(OperandView::Immediate(n)),
            None => None,
        }
    } else if is_lower(t[0]) {
        if opcode.is_jump() {
            Some(OperandView::LabelRef(t))
        } else if t.len() == 1 {
            Some(OperandView::Address(letter_cell(t[0]) as u8))
        } else {
            None
        }
    } else {
        None
    }
}

/// The memory cell that `letter` names, if it is a lowercase letter.
pub fn cell_of_letter(letter: u8) -> (cell: Option<u8>)
    ensures
        cell == if is_lower(letter) {
            Some(letter_cell(letter) as u8)
        } else {
            None
        },
        cell matches Some(c) ==> c < 26 && c == letter_cell(letter),
{
    if 'a' as u8 <= letter && letter <= 'z' as u8 {
        Some(letter - 'a' as u8)
    } else {
        None
    }
}

/// One more than the largest magnitude a 32-bit integer can have.
pub const MAGNITUDE_LIMIT: u64 = 0x8000_0001;

/// The number denoted by the digits of `t` from `from` on, or
/// `MAGNITUDE_LIMIT` if that is smaller; `None` unless those bytes are one or
/// more digits.
fn read_digits(t: &Vec<u8>, from: usize) -> (r: Option<u64>)
    requires
        from <= t.len(),
    ensures
        r.is_some() == all_digits(t@.skip(from as int)),
        r matches Some(v) ==> v == if decimal(t@.skip(from as int)) < MAGNITUDE_LIMIT {
            decimal(t@.skip(from as int))
        } else {
            MAGNITUDE_LIMIT as nat
        },
{
    let ghost digits = t@.skip(from as int);
    if from == t.len() {
        return None;
    }
    let mut value: u64 = 0;
    let mut i: usize = from;
    assert(digits.take(0) =~= Seq::<u8>::empty());
    while i < t.len()
        invariant
            from <= i <= t.len(),
            digits == t@.skip(from as int),
            forall|j: int| 0 <= j < i - from ==> is_digit(#[trigger] digits[j]),
            value <= MAGNITUDE_LIMIT,
            value == if decimal(digits.take(i - from)) < MAGNITUDE_LIMIT {
                decimal(digits.take(i - from))
            } else {
                MAGNITUDE_LIMIT as nat
            },
        decreases t.len() - i,
    {
        let b = t[i];
        assert(b == digits[i - from]);
        if !('0' as u8 <= b && b <= '9' as u8) {
            return None;
        }
        assert(digits.take(i - from + 1).drop_last() =~= digits.take(i - from));
        let next = value * 10 + (b - '0' as u8) as u64;
        value = if next < MAGNITUDE_LIMIT {
            next
        } else {
            MAGNITUDE_LIMIT
        };
        i += 1;
    }
    assert(digits.take(i - from) =~= digits);
    Some(value)
}

/// The 32-bit integer that the token denotes, if it denotes one.
pub fn read_immediate(t: &Vec<u8>) -> (r: Option<i32>)
    ensures
        r == immediate(t@),
{
    if t.len() > 0 && t[0] == '-' as u8 {
        match read_digits(t, 1) {
            Some(v) => {
                if v <= 0x8000_0000 {
                    Some((-(v as i64)) as i32)
                } else {
                    None
                }
            },
            None => None,
        }
    } else {
        assert(t@.skip(0) =~= t@);
        match read_digits(t, 0) {
            Some(v) => {
                if v <= 0x7fff_ffff {
                    Some(v as i32)
                } else {
                    None
                }
            },
            None => None,
        }
    }
}

/// The operand that the token denotes after `opcode`, if it denotes one.
pub fn read_operand(opcode: Opcode, t: &Vec<u8>) -> (r: Option<Operand>)
    ensures
        match r {
            Some(operand) => operand_of(opcode, t@) == Some(operand@),
            None => operand_of(opcode, t@).is_none(),
        },
{
    if t.len() == 0 {
        return None;
    }
    let first = t[0];
    if ('0' as u8 <= first && first <= '9' as u8) || first == '-' as u8 {
        match read_immediate(t) {
            Some(n) => Some(Operand::Immediate(n)),
            None => None,
        }
    } else {
        match cell_of_letter(first) {
            Some(cell) => {
                if opcode.is_jump_family() {
                    let name = copy_range(t, 0, t.len());
                    assert(name@ =~= t@);
                    Some(Operand::LabelRef(name))
                } else if t.len() == 1 {
                    Some(Operand::Address(cell))
                } else {
                    None
                }
            },
            None => None,
        }
    }
}

/// The lowercase letters and the 26 memory cells correspond one to one: `a`
/// names cell 0 and `z` cell 25, every letter names a cell, and every cell is
/// named by the letter that names it and by no other.
pub proof fn lemma_letters_name_cells()
    ensures
        letter_cell('a' as u8) == 0,
        letter_cell('z' as u8) == 25,
        forall|letter: u8|
            is_lower(letter) ==> 0 <= #[trigger] letter_cell(letter) < 26 && cell_letter(
                letter_cell(letter),
            ) == letter,
        forall|cell: int|
            0 <= cell < 26 ==> is_lower(#[trigger] cell_letter(cell)) && letter_cell(
                cell_letter(cell),
            ) == cell,
        forall|a: u8, b: u8|
            is_lower(a) && is_lower(b) && #[trigger] letter_cell(a) == #[trigger] letter_cell(b)
                ==> a == b,
{
}

/// After an opcode that is no jump, a single lowercase letter is the
/// address of the cell it names.
pub proof fn lemma_letter_is_address(opcode: Opcode, letter: u8)
    requires
        is_lower(letter),
        !opcode.is_jump(),
    ensures
        operand_of(opcode, seq![letter]) == Some(
            OperandView::Address(letter_cell(letter) as u8),
        ),
        letter_cell(letter) as u8 == letter_cell(letter),
{
}

/// An operand that a token denotes is an immediate, the address of a memory
/// cell after an opcode that is no jump, or a label reference after a jump.
pub proof fn lemma_operand_shapes(opcode: Opcode, t: Seq<u8>)
    ensures
        match operand_of(opcode, t) {
            Some(OperandView::Immediate(_)) => true,
            Some(OperandView::Address(a)) => a < 26 && !opcode.is_jump(),
            Some(OperandView::LabelRef(name)) => opcode.is_jump() && name == t,
            Some(_) => false,
            None => true,
        },
{
}

/// The part of a line before its comment holds no `;`, and it is the whole
/// line exactly if the line holds none.
pub proof fn lemma_code_has_no_comment(line: Seq<u8>)
    ensures
        code(line).len() <= line.len(),
        forall|j: int| 0 <= j < code(line).len() ==> #[trigger] code(line)[j] != ';' as u8,
        code(line) == line <==> forall|j: int| 0 <= j < line.len() ==> #[trigger] line[j]
            != ';' as u8,
{
    let stop = |b: u8| b == ';' as u8;
    lemma_prefix_len(line, stop);
    if forall|j: int| 0 <= j < line.len() ==> #[trigger] line[j] != ';' as u8 {
        assert(line.take(line.len() as int) =~= line);
    } else {
        let j = choose|j: int| 0 <= j < line.len() && #[trigger] line[j] == ';' as u8;
        if code_len(line) > j {
            assert(!stop(line[j]));
        }
    }
}

/// A non-empty string without blanks.
pub open spec fn is_word(t: Seq<u8>) -> bool {
    t.len() > 0 && forall|j: int| 0 <= j < t.len() ==> !is_space(#[trigger] t[j])
}

/// Every token is a non-empty string without blanks.
pub proof fn lemma_tokens_are_words(s: Seq<u8>)
    ensures
        forall|k: int| 0 <= k < tokens(s).len() ==> is_word(#[trigger] tokens(s)[k]),
    decreases s.len(),
{
    if s.len() == 0 {
        assert(tokens(s).len() == 0);
    } else if is_space(s[0]) {
        lemma_tokens_are_words(s.drop_first());
        assert(tokens(s) == tokens(s.drop_first()));
    } else {
        let n = word_len(s) as int;
        let first = s.take(n);
        let rest = tokens(s.skip(n));
        lemma_prefix_len(s, |b: u8| is_space(b));
        lemma_tokens_are_words(s.skip(n));
        assert(tokens(s) == seq![first] + rest);
        assert(is_word(first)) by {
            assert forall|j: int| 0 <= j < first.len() implies !is_space(#[trigger] first[j]) by {
                assert(first[j] == s[j]);
            }
        }
        assert forall|k: int| 0 <= k < tokens(s).len() implies is_word(#[trigger] tokens(s)[k]) by {
            if k > 0 {
                assert(tokens(s)[k] == rest[k - 1]);
            }
        }
    }
}

/// A word is its own only token.
pub proof fn lemma_tokens_of_word(s: Seq<u8>)
    requires
        is_word(s),
    ensures
        tokens(s) == seq![s],
{
    let n = s.len() as int;
    lemma_prefix_len_is(s, |b: u8| is_space(b), n);
    assert(!is_space(s[0]));
    assert(word_len(s) == n);
    assert(s.take(n) =~= s);
    assert(s.skip(n) =~= Seq::<u8>::empty());
    assert(tokens(s.skip(n)) =~= Seq::<Seq<u8>>::empty());
    assert(tokens(s) == seq![s.take(n)] + tokens(s.skip(n)));
    assert(seq![s] + Seq::<Seq<u8>>::empty() =~= seq![s]);
}

/// Blanks before and after a text do not change its tokens.
pub proof fn lemma_tokens_ignore_blank(s: Seq<u8>, blank: u8)
    requires
        is_space(blank),
    ensures
        tokens(seq![blank] + s) == tokens(s),
        tokens(s.push(blank)) == tokens(s),
    decreases s.len(),
{
    assert((seq![blank] + s).drop_first() =~= s);
    if s.len() == 0 {
        assert(s.push(blank) =~= seq![blank] + s);
    } else if is_space(s[0]) {
        lemma_tokens_ignore_blank(s.drop_first(), blank);
        assert(s.push(blank).drop_first() =~= s.drop_first().push(blank));
    } else {
        let n = word_len(s) as int;
        let longer = s.push(blank);
        lemma_prefix_len(s, |b: u8| is_space(b));
        assert forall|j: int| 0 <= j < n implies !is_space(#[trigger] longer[j]) by {
            assert(longer[j] == s[j]);
        }
        if n < s.len() {
            assert(longer[n] == s[n]);
        }
        lemma_prefix_len_is(longer, |b: u8| is_space(b), n);
        assert(longer.take(n) =~= s.take(n));
        assert(longer.skip(n) =~= s.skip(n).push(blank));
        lemma_tokens_ignore_blank(s.skip(n), blank);
    }
}

} // verus!
