use accu_asm::parser::lexer::{
    cell_of_letter, find_comment, is_space_byte, read_immediate, read_mnemonic, read_operand,
    tokenize,
};
use accu_asm::parser::parser;
use accu_asm::parser::semantic_checker::semantic_checker;
use accu_asm::parser::syntax_checker::{
    check_end, parse_line, ParseError, ParseErrorKind,
};
use accu_asm::program::{
    same_bytes, Instruction, Label, LabelTable, Opcode, Operand, Program,
};

fn text(lines: &[&str]) -> Vec<Vec<u8>> {
    lines.iter().map(|l| l.as_bytes().to_vec()).collect()
}

fn bytes(s: &str) -> Vec<u8> {
    s.as_bytes().to_vec()
}

fn instr(opcode: Opcode, operand: Operand, source_line: usize) -> Instruction {
    Instruction { opcode, operand, source_line }
}

fn label(name: &str, index: usize) -> Label {
    Label { name: bytes(name), index }
}

fn defect(lines: &[&str]) -> (ParseErrorKind, usize) {
    match parser(&text(lines)) {
        Ok(_) => panic!("the text was accepted"),
        Err(e) => (e.kind, e.line),
    }
}

#[test]
fn comment_starts_at_first_semicolon() {
    assert_eq!(find_comment(&bytes("ld 1 ; one ; two")), 5);
    assert_eq!(find_comment(&bytes("ld 1")), 4);
    assert_eq!(find_comment(&bytes(";")), 0);
    assert_eq!(find_comment(&bytes("")), 0);
}

#[test]
fn tokens_are_runs_of_non_blank_bytes() {
    let words = |s: &str| tokenize(&bytes(s));
    assert_eq!(words("  ld\t 10  :x \r"), vec![bytes("ld"), bytes("10"), bytes(":x")]);
    assert_eq!(words("  ld;\t 10  :x \r"), vec![bytes("ld")]);
    assert_eq!(words("ld 10;"), vec![bytes("ld"), bytes("10")]);
    assert_eq!(words("ld 1;0"), vec![bytes("ld"), bytes("1")]);
    assert_eq!(words(" \t \x0b\x0c"), Vec::<Vec<u8>>::new());
    assert_eq!(words(""), Vec::<Vec<u8>>::new());
    assert_eq!(words("; ld 10"), Vec::<Vec<u8>>::new());
    assert_eq!(words("a"), vec![bytes("a")]);
    assert_eq!(words("a\u{a0}b c"), vec![bytes("a\u{a0}b"), bytes("c")]);
}

#[test]
fn every_mnemonic_is_read() {
    let table = [
        ("ld", Opcode::Load),
        ("st", Opcode::Store),
        ("in", Opcode::Input),
        ("out", Opcode::Output),
        ("add", Opcode::Add),
        ("sub", Opcode::Sub),
        ("mul", Opcode::Mul),
        ("div", Opcode::Div),
        ("mod", Opcode::Mod),
        ("cmp", Opcode::Compare),
        ("jmp", Opcode::Jump),
        ("jlt", Opcode::JumpIfLess),
        ("jeq", Opcode::JumpIfEqual),
        ("jgt", Opcode::JumpIfGreater),
        ("end", Opcode::End),
    ];
    for (word, opcode) in table {
        assert_eq!(read_mnemonic(&bytes(word)), Some(opcode));
    }
}

#[test]
fn mnemonics_are_lowercase_and_exact() {
    for word in ["LD", "Ld", "l", "ldd", "", "en", "endd", "jne", "ou", "a", "xyz"] {
        assert_eq!(read_mnemonic(&bytes(word)), None);
    }
}

#[test]
fn immediates_are_decimal_and_fit_32_bits() {
    assert_eq!(read_immediate(&bytes("0")), Some(0));
    assert_eq!(read_immediate(&bytes("10")), Some(10));
    assert_eq!(read_immediate(&bytes("007")), Some(7));
    assert_eq!(read_immediate(&bytes("-5")), Some(-5));
    assert_eq!(read_immediate(&bytes("-0")), Some(0));
    assert_eq!(read_immediate(&bytes("2147483647")), Some(i32::MAX));
    assert_eq!(read_immediate(&bytes("-2147483648")), Some(i32::MIN));
    assert_eq!(read_immediate(&bytes("2147483648")), None);
    assert_eq!(read_immediate(&bytes("-2147483649")), None);
    assert_eq!(read_immediate(&bytes("99999999999999999999999999999999")), None);
    assert_eq!(read_immediate(&bytes("0000000000000000000000000000000012")), Some(12));
    assert_eq!(read_immediate(&bytes("-")), None);
    assert_eq!(read_immediate(&bytes("")), None);
    assert_eq!(read_immediate(&bytes("12x")), None);
    assert_eq!(read_immediate(&bytes("1-2")), None);
    assert_eq!(read_immediate(&bytes("--1")), None);
    assert_eq!(read_immediate(&bytes("+1")), None);
}

#[test]
fn letters_are_addresses_0_to_25() {
    for (i, letter) in (b'a'..=b'z').enumerate() {
        assert_eq!(
            read_operand(Opcode::Load, &vec![letter]),
            Some(Operand::Address(i as u8))
        );
    }
    assert_eq!(read_operand(Opcode::Store, &bytes("a")), Some(Operand::Address(0)));
    assert_eq!(read_operand(Opcode::Store, &bytes("z")), Some(Operand::Address(25)));
}

#[test]
fn letters_and_cells_correspond_one_to_one() {
    let mut named = [0u32; 26];
    for byte in 0..=255u8 {
        match cell_of_letter(byte) {
            Some(cell) => {
                assert!(byte.is_ascii_lowercase());
                assert_eq!(cell, byte - b'a');
                named[cell as usize] += 1;
            }
            None => assert!(!byte.is_ascii_lowercase()),
        }
    }
    assert_eq!(named, [1; 26]);
    assert_eq!(cell_of_letter(b'a'), Some(0));
    assert_eq!(cell_of_letter(b'z'), Some(25));
}

#[test]
fn blanks_are_space_and_the_five_control_characters() {
    for byte in 0..=255u8 {
        let expected = matches!(byte, b' ' | b'\t' | b'\n' | 0x0b | 0x0c | b'\r');
        assert_eq!(is_space_byte(byte), expected, "{}", byte);
    }
}

#[test]
fn operand_kinds() {
    assert_eq!(read_operand(Opcode::Add, &bytes("42")), Some(Operand::Immediate(42)));
    assert_eq!(read_operand(Opcode::Add, &bytes("-42")), Some(Operand::Immediate(-42)));
    assert_eq!(read_operand(Opcode::Jump, &bytes("3")), Some(Operand::Immediate(3)));
    assert_eq!(
        read_operand(Opcode::Jump, &bytes("loop")),
        Some(Operand::LabelRef(bytes("loop")))
    );
    assert_eq!(
        read_operand(Opcode::JumpIfLess, &bytes("x")),
        Some(Operand::LabelRef(bytes("x")))
    );
    assert_eq!(
        read_operand(Opcode::JumpIfEqual, &bytes("l00p")),
        Some(Operand::LabelRef(bytes("l00p")))
    );
    assert_eq!(read_operand(Opcode::Load, &bytes("loop")), None);
    assert_eq!(read_operand(Opcode::Load, &bytes("A")), None);
    assert_eq!(read_operand(Opcode::Load, &bytes("?")), None);
    assert_eq!(read_operand(Opcode::Load, &bytes("")), None);
    assert_eq!(read_operand(Opcode::Jump, &bytes("Loop")), None);
    assert_eq!(read_operand(Opcode::Load, &bytes("{")), None);
    assert_eq!(read_operand(Opcode::Load, &bytes("`")), None);
}

#[test]
fn a_line_gives_an_instruction() {
    let line = parse_line(&bytes("  add 7   ; seven"), 3, 12).unwrap();
    assert_eq!(line.instruction, Some(instr(Opcode::Add, Operand::Immediate(7), 12)));
    assert_eq!(line.labels, vec![]);
    let line = parse_line(&bytes("end"), 0, 1).unwrap();
    assert_eq!(line.instruction, Some(instr(Opcode::End, Operand::Absent, 1)));
}

#[test]
fn blank_and_comment_lines_give_nothing() {
    for src in ["", "   ", "; only a comment", "\t ; x", ";ld 1"] {
        let line = parse_line(&bytes(src), 5, 9).unwrap();
        assert_eq!(line.instruction, None);
        assert_eq!(line.labels, vec![]);
    }
}

#[test]
fn a_label_names_the_instruction_written_next() {
    let line = parse_line(&bytes(":top"), 4, 1).unwrap();
    assert_eq!(line.instruction, None);
    assert_eq!(line.labels, vec![label("top", 4)]);

    let line = parse_line(&bytes(":top ld 1"), 4, 1).unwrap();
    assert_eq!(line.instruction, Some(instr(Opcode::Load, Operand::Immediate(1), 1)));
    assert_eq!(line.labels, vec![label("top", 4)]);

    let line = parse_line(&bytes("ld :mid 1"), 4, 1).unwrap();
    assert_eq!(line.instruction, Some(instr(Opcode::Load, Operand::Immediate(1), 1)));
    assert_eq!(line.labels, vec![label("mid", 4)]);

    let line = parse_line(&bytes("ld 1 :next"), 4, 1).unwrap();
    assert_eq!(line.instruction, Some(instr(Opcode::Load, Operand::Immediate(1), 1)));
    assert_eq!(line.labels, vec![label("next", 5)]);

    let line = parse_line(&bytes(":a ld :b 1 :c :d ; :e"), 4, 1).unwrap();
    assert_eq!(
        line.labels,
        vec![label("a", 4), label("b", 4), label("c", 5), label("d", 5)]
    );

    let line = parse_line(&bytes("end :after"), 4, 1).unwrap();
    assert_eq!(line.instruction, Some(instr(Opcode::End, Operand::Absent, 1)));
    assert_eq!(line.labels, vec![label("after", 5)]);

    let line = parse_line(&bytes(": :1x"), 0, 1).unwrap();
    assert_eq!(line.labels, vec![label("", 0), label("1x", 0)]);
}

#[test]
fn line_defects() {
    assert_eq!(parse_line(&bytes("load 1"), 0, 1), Err(ParseErrorKind::UnknownMnemonic));
    assert_eq!(parse_line(&bytes("LD 1"), 0, 1), Err(ParseErrorKind::UnknownMnemonic));
    assert_eq!(parse_line(&bytes("1 ld"), 0, 1), Err(ParseErrorKind::UnknownMnemonic));
    assert_eq!(parse_line(&bytes("ld"), 0, 1), Err(ParseErrorKind::MissingOperand));
    assert_eq!(parse_line(&bytes("jmp :x"), 0, 1), Err(ParseErrorKind::MissingOperand));
    assert_eq!(parse_line(&bytes("ld ; 5"), 0, 1), Err(ParseErrorKind::MissingOperand));
    assert_eq!(parse_line(&bytes("ld 1x"), 0, 1), Err(ParseErrorKind::InvalidOperand));
    assert_eq!(parse_line(&bytes("ld loop"), 0, 1), Err(ParseErrorKind::InvalidOperand));
    assert_eq!(parse_line(&bytes("ld -"), 0, 1), Err(ParseErrorKind::InvalidOperand));
    assert_eq!(parse_line(&bytes("ld 1 2"), 0, 1), Err(ParseErrorKind::TooManyOperands));
    assert_eq!(parse_line(&bytes("ld a b"), 0, 1), Err(ParseErrorKind::TooManyOperands));
    assert_eq!(parse_line(&bytes("end 1"), 0, 1), Err(ParseErrorKind::TooManyOperands));
    assert_eq!(parse_line(&bytes("end end"), 0, 1), Err(ParseErrorKind::TooManyOperands));
}

#[test]
fn the_first_defect_of_a_line_is_reported() {
    assert_eq!(parse_line(&bytes("foo 1x 2"), 0, 1), Err(ParseErrorKind::UnknownMnemonic));
    assert_eq!(parse_line(&bytes("ld 1x 2"), 0, 1), Err(ParseErrorKind::InvalidOperand));
    assert_eq!(parse_line(&bytes("ld 1 2x"), 0, 1), Err(ParseErrorKind::TooManyOperands));
}

#[test]
fn a_program_is_read_line_by_line() {
    let (program, labels) = parser(&text(&[
        "; sum of two numbers",
        "ld 10",
        "",
        "st a      ; keep it",
        ":again",
        "add a",
        "jgt again",
        "end",
    ]))
    .unwrap();
    assert_eq!(
        program.instructions,
        vec![
            instr(Opcode::Load, Operand::Immediate(10), 2),
            instr(Opcode::Store, Operand::Address(0), 4),
            instr(Opcode::Add, Operand::Address(0), 6),
            instr(Opcode::JumpIfGreater, Operand::LabelRef(bytes("again")), 7),
            instr(Opcode::End, Operand::Absent, 8),
        ]
    );
    assert_eq!(labels.entries, vec![label("again", 2)]);
}

#[test]
fn a_defect_carries_kind_message_and_line() {
    let e = parser(&text(&["ld 1", "bogus", "end"])).unwrap_err();
    assert_eq!(
        e,
        ParseError {
            kind: ParseErrorKind::UnknownMnemonic,
            msg: "unknown mnemonic".to_string(),
            line: 2
        }
    );
    assert_eq!(ParseError::new(ParseErrorKind::MissingEnd, 7).msg, "missing end");
    assert_eq!(ParseErrorKind::InvalidOperand.describe(), "invalid operand");
    assert_eq!(ParseErrorKind::MissingOperand.describe(), "missing operand");
    assert_eq!(ParseErrorKind::TooManyOperands.describe(), "too many operands");
    assert_eq!(ParseErrorKind::DuplicateEnd.describe(), "duplicate end");
    assert_eq!(ParseErrorKind::UnknownLabel.describe(), "unknown label");
    assert_eq!(ParseErrorKind::AmbiguousLabel.describe(), "ambiguous label");
}

#[test]
fn each_parse_defect_has_an_input() {
    assert_eq!(defect(&["ld 1", "nop", "end"]), (ParseErrorKind::UnknownMnemonic, 2));
    assert_eq!(defect(&["ld 1", "", "ld x1", "end"]), (ParseErrorKind::InvalidOperand, 3));
    assert_eq!(defect(&["st", "end"]), (ParseErrorKind::MissingOperand, 1));
    assert_eq!(defect(&["ld 1", "end", "out a b"]), (ParseErrorKind::TooManyOperands, 3));
    assert_eq!(defect(&["ld 1"]), (ParseErrorKind::MissingEnd, 1));
    assert_eq!(defect(&["end", "end"]), (ParseErrorKind::DuplicateEnd, 2));
    assert_eq!(defect(&["jmp nowhere", "end"]), (ParseErrorKind::UnknownLabel, 1));
    assert_eq!(
        defect(&[":twice", "ld 1", ":twice", "jmp twice", "end"]),
        (ParseErrorKind::AmbiguousLabel, 4)
    );
}

#[test]
fn a_program_without_final_end_misses_it() {
    assert_eq!(defect(&[]), (ParseErrorKind::MissingEnd, 0));
    assert_eq!(defect(&["", "; nothing", "   "]), (ParseErrorKind::MissingEnd, 0));
    assert_eq!(defect(&[":only"]), (ParseErrorKind::MissingEnd, 0));
    assert_eq!(defect(&["ld 1", "out a", ""]), (ParseErrorKind::MissingEnd, 2));
    assert_eq!(defect(&["end", "ld 1"]), (ParseErrorKind::MissingEnd, 2));
    assert_eq!(defect(&["end", "end", "ld 1"]), (ParseErrorKind::MissingEnd, 3));
}

#[test]
fn the_second_end_is_the_duplicate() {
    assert_eq!(defect(&["end", "end"]), (ParseErrorKind::DuplicateEnd, 2));
    assert_eq!(
        defect(&["ld 1", "end", "ld 2", "", "end", "end"]),
        (ParseErrorKind::DuplicateEnd, 5)
    );
    assert_eq!(defect(&["end", "ld 1", "end"]), (ParseErrorKind::DuplicateEnd, 3));
}

#[test]
fn a_line_defect_comes_before_the_others() {
    assert_eq!(defect(&["end", "end", "what"]), (ParseErrorKind::UnknownMnemonic, 3));
    assert_eq!(defect(&["jmp nowhere", "ld"]), (ParseErrorKind::MissingOperand, 2));
    assert_eq!(defect(&["jmp nowhere"]), (ParseErrorKind::MissingEnd, 1));
    assert_eq!(defect(&["jmp nowhere", "end", "end"]), (ParseErrorKind::DuplicateEnd, 3));
}

#[test]
fn label_references_must_have_one_definition() {
    assert_eq!(defect(&["jlt missing", "end"]), (ParseErrorKind::UnknownLabel, 1));
    assert_eq!(
        defect(&[":here", "ld 1", "jeq there", "end"]),
        (ParseErrorKind::UnknownLabel, 3)
    );
    assert_eq!(
        defect(&[":dup", "ld 1", ":dup", ":dup", "jmp dup", "end"]),
        (ParseErrorKind::AmbiguousLabel, 5)
    );
    // the first reference at fault decides
    assert_eq!(
        defect(&[":dup", ":dup", "jmp gone", "jmp dup", "end"]),
        (ParseErrorKind::UnknownLabel, 3)
    );
    assert_eq!(
        defect(&[":dup", ":dup", "jmp dup", "jmp gone", "end"]),
        (ParseErrorKind::AmbiguousLabel, 3)
    );
    // a label may be defined after it is referred to, and unused labels may repeat
    assert!(parser(&text(&["jmp fwd", ":unused", ":unused", ":fwd end"])).is_ok());
}

#[test]
fn a_label_defined_twice_cannot_be_jumped_to() {
    let result = parser(&text(&[":x", "ld 1", ":x", "jmp x", "end"]));
    let e = result.unwrap_err();
    assert_eq!(e.kind, ParseErrorKind::AmbiguousLabel);
    assert_eq!(e.line, 4);
    assert_eq!(e.msg, "ambiguous label");
}

#[test]
fn check_end_alone() {
    let program = Program {
        instructions: vec![
            instr(Opcode::End, Operand::Absent, 3),
            instr(Opcode::Load, Operand::Immediate(1), 5),
            instr(Opcode::End, Operand::Absent, 8),
            instr(Opcode::End, Operand::Absent, 9),
        ],
    };
    let e = check_end(&program).unwrap_err();
    assert_eq!((e.kind, e.line), (ParseErrorKind::DuplicateEnd, 8));
    let program = Program { instructions: vec![instr(Opcode::End, Operand::Absent, 3)] };
    assert_eq!(check_end(&program), Ok(()));
    let program = Program { instructions: vec![] };
    let e = check_end(&program).unwrap_err();
    assert_eq!((e.kind, e.line), (ParseErrorKind::MissingEnd, 0));
}

#[test]
fn semantic_checker_alone() {
    let program = Program {
        instructions: vec![
            instr(Opcode::Jump, Operand::LabelRef(bytes("one")), 1),
            instr(Opcode::Load, Operand::LabelRef(bytes("two")), 2),
            instr(Opcode::End, Operand::Absent, 3),
        ],
    };
    let table = |names: &[&str]| LabelTable {
        entries: names.iter().enumerate().map(|(i, n)| label(n, i)).collect(),
    };
    assert_eq!(semantic_checker(&program, &table(&["one", "two"])), Ok(()));
    let e = semantic_checker(&program, &table(&["one"])).unwrap_err();
    assert_eq!((e.kind, e.line), (ParseErrorKind::UnknownLabel, 2));
    let e = semantic_checker(&program, &table(&["two", "one", "two"])).unwrap_err();
    assert_eq!((e.kind, e.line), (ParseErrorKind::AmbiguousLabel, 2));
    let e = semantic_checker(&program, &table(&[])).unwrap_err();
    assert_eq!((e.kind, e.line), (ParseErrorKind::UnknownLabel, 1));
}

#[test]
fn label_table_counts_and_resolves() {
    let table = LabelTable {
        entries: vec![label("a", 0), label("b", 4), label("a", 7), label("", 2)],
    };
    assert_eq!(table.count(&bytes("a")), 2);
    assert_eq!(table.count(&bytes("b")), 1);
    assert_eq!(table.count(&bytes("c")), 0);
    assert_eq!(table.resolve(&bytes("a")), None);
    assert_eq!(table.resolve(&bytes("b")), Some(4));
    assert_eq!(table.resolve(&bytes("c")), None);
    assert_eq!(table.resolve(&bytes("")), Some(2));
    assert!(same_bytes(&bytes("abc"), &bytes("abc")));
    assert!(!same_bytes(&bytes("abc"), &bytes("abd")));
    assert!(!same_bytes(&bytes("abc"), &bytes("ab")));
    assert!(same_bytes(&bytes(""), &bytes("")));
}

#[test]
fn jump_family() {
    assert!(Opcode::Jump.is_jump_family());
    assert!(Opcode::JumpIfLess.is_jump_family());
    assert!(Opcode::JumpIfEqual.is_jump_family());
    assert!(Opcode::JumpIfGreater.is_jump_family());
    assert!(!Opcode::Load.is_jump_family());
    assert!(!Opcode::Compare.is_jump_family());
    assert!(!Opcode::End.is_jump_family());
}
