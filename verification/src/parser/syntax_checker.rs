//! The shape of a program text.
//!
//! A line holds at most one instruction: a mnemonic and, unless it is `end`,
//! one operand. A token that starts with `:` defines a label and may stand
//! anywhere in a line, also alone; the label names the instruction that is
//! written next. Lines without instruction take no place in the program. The
//! last instruction of a program is `end`, and no other is.

use vstd::prelude::*;
use vstd::string::*;
use crate::parser::lexer::{
    code,
    copy_range,
    lemma_operand_shapes,
    opcode_of,
    operand_of,
    read_mnemonic,
    read_operand,
    tokenize,
    tokens,
    views,
};
use crate::program::{
    address_in_range,
    Instruction,
    InstructionView,
    Label,
    LabelTable,
    LabelView,
    Opcode,
    Operand,
    OperandView,
    Program,
};

verus! {

/// The ways in which a program text can be rejected.
#[derive(Clone, Copy, Debug, PartialEq, Eq, Structural)]
pub enum ParseErrorKind {
    /// The first word of a line is no mnemonic.
    UnknownMnemonic,
    /// The word after the mnemonic is no operand for it.
    InvalidOperand,
    /// The mnemonic needs an operand and the line has none.
    MissingOperand,
    /// The line has more words than its instruction takes.
    TooManyOperands,
    /// The program is empty or its last instruction is not `end`.
    MissingEnd,
    /// An `end` stands before the last instruction.
    DuplicateEnd,
    /// A label is referred to and never defined.
    UnknownLabel,
    /// A label is referred to and defined more than once.
    AmbiguousLabel,
}

impl ParseErrorKind {
    /// The text that reports this kind of defect.
    pub open spec fn message(self) -> Seq<char> {
        match self {
            ParseErrorKind::UnknownMnemonic => "unknown mnemonic"@,
            ParseErrorKind::InvalidOperand => "invalid operand"@,
            ParseErrorKind::MissingOperand => "missing operand"@,
            ParseErrorKind::TooManyOperands => "too many operands"@,
            ParseErrorKind::MissingEnd => "missing end"@,
            ParseErrorKind::DuplicateEnd => "duplicate end"@,
            ParseErrorKind::UnknownLabel => "unknown label"@,
            ParseErrorKind::AmbiguousLabel => "ambiguous label"@,
        }
    }

    /// The text that reports this kind of defect.
    pub fn describe(self) -> (s: String)
        ensures
            s@ == self.message(),
    {
        match self {
            ParseErrorKind::UnknownMnemonic => String::from_str("unknown mnemonic"),
            ParseErrorKind::InvalidOperand => String::from_str("invalid operand"),
            ParseErrorKind::MissingOperand => String::from_str("missing operand"),
            ParseErrorKind::TooManyOperands => String::from_str("too many operands"),
            ParseErrorKind::MissingEnd => String::from_str("missing end"),
            ParseErrorKind::DuplicateEnd => String::from_str("duplicate end"),
            ParseErrorKind::UnknownLabel => String::from_str("unknown label"),
            ParseErrorKind::AmbiguousLabel => String::from_str("ambiguous label"),
        }
    }
}

/// A defect of the program text: what is wrong, the message for it, and the
/// number of the source line it was found in. Lines are numbered from 1; an
/// empty program misses its `end` at line 0.
#[derive(Clone, Debug, PartialEq, Eq)]
pub struct ParseError {
    pub kind: ParseErrorKind,
    pub msg: String,
    pub line: usize,
}

/// Mathematical value of a [`ParseError`]: its kind and line.
pub struct Defect {
    pub kind: ParseErrorKind,
    pub line: nat,
}

impl View for ParseError {
    type V = Defect;

    open spec fn view(&self) -> Defect {
        Defect { kind: self.kind, line: self.line as nat }
    }
}

impl ParseError {
    /// The message is the one that belongs to the kind.
    pub open spec fn wf(&self) -> bool {
        self.msg@ == self.kind.message()
    }

    /// The defect of the given kind at the given line.
    pub fn new(kind: ParseErrorKind, line: usize) -> (e: ParseError)
        ensures
            e@ == (Defect { kind, line: line as nat }),
            e.wf(),
    {
        ParseError { kind, msg: kind.describe(), line }
    }
}

/// A token that defines a label: `:` followed by the name.
pub open spec fn is_label_token(t: Seq<u8>) -> bool {
    t.len() > 0 && t[0] == ':' as u8
}

/// The tokens of a line that are no label definitions: the mnemonic and
/// what follows it.
pub open spec fn words(tokens: Seq<Seq<u8>>) -> Seq<Seq<u8>> {
    tokens.filter(|t: Seq<u8>| !is_label_token(t))
}

/// Number of words an instruction is written with: the mnemonic, and the
/// operand unless the opcode is `End`.
pub open spec fn word_count(opcode: Opcode) -> nat {
    if opcode == Opcode::End {
        1
    } else {
        2
    }
}

/// The instruction that the words of line `line_no` denote, `None` for a
/// line without words.
///
/// The first word must be a mnemonic. `end` stands alone. After any other
/// mnemonic exactly one more word must follow, and it must be an operand for
/// that mnemonic.
pub open spec fn instruction_of(words: Seq<Seq<u8>>, line_no: nat) -> Result<
    Option<InstructionView>,
    ParseErrorKind,
> {
    if words.len() == 0 {
        Ok(None)
    } else {
        match opcode_of(words[0]) {
            None => Err(ParseErrorKind::UnknownMnemonic),
            Some(opcode) => if opcode == Opcode::End {
                if words.len() > 1 {
                    Err(ParseErrorKind::TooManyOperands)
                } else {
                    Ok(
                        Some(
                            InstructionView {
                                opcode,
                                operand: OperandView::Absent,
                                source_line: line_no,
                            },
                        ),
                    )
                }
            } else if words.len() == 1 {
                Err(ParseErrorKind::MissingOperand)
            } else {
                match operand_of(opcode, words[1]) {
                    None => Err(ParseErrorKind::InvalidOperand),
                    Some(operand) => if words.len() > 2 {
                        Err(ParseErrorKind::TooManyOperands)
                    } else {
                        Ok(Some(InstructionView { opcode, operand, source_line: line_no }))
                    },
                }
            },
        }
    }
}

/// Whether the words hold all that their instruction is written with.
pub open spec fn complete(words: Seq<Seq<u8>>) -> bool {
    words.len() > 0 && match opcode_of(words[0]) {
        Some(opcode) => words.len() >= word_count(opcode),
        None => false,
    }
}

/// The label definitions among the tokens of a line that starts when
/// `count` instructions have been read.
///
/// A label names the instruction that is written next: the one of its own
/// line if words of it are still to come, and else the one after it.
pub open spec fn labels_of(tokens: Seq<Seq<u8>>, count: nat) -> Seq<LabelView>
    decreases tokens.len(),
{
    if tokens.len() == 0 {
        Seq::empty()
    } else {
        let before = tokens.drop_last();
        let t = tokens.last();
        if is_label_token(t) {
            labels_of(before, count).push(
                LabelView {
                    name: t.skip(1),
                    index: if complete(words(before)) {
                        count + 1
                    } else {
                        count
                    },
                },
            )
        } else {
            labels_of(before, count)
        }
    }
}

/// What one line adds to a program.
#[derive(Clone, Debug, PartialEq, Eq)]
pub struct Line {
    pub instruction: Option<Instruction>,
    pub labels: Vec<Label>,
}

/// Mathematical value of a [`Line`].
pub struct LineView {
    pub instruction: Option<InstructionView>,
    pub labels: Seq<LabelView>,
}

/// The values of the labels in `v`.
pub open spec fn label_views(v: Seq<Label>) -> Seq<LabelView> {
    Seq::new(v.len(), |i: int| v[i]@)
}

impl View for Line {
    type V = LineView;

    open spec fn view(&self) -> LineView {
        LineView {
            instruction: match self.instruction {
                Some(instruction) => Some(instruction@),
                None => None,
            },
            labels: label_views(self.labels@),
        }
    }
}

/// What line `line_no` adds to a program of `count` instructions: the
/// comment is dropped and the rest split into tokens; the words among them
/// give the instruction, the others the labels.
pub open spec fn line_spec(line: Seq<u8>, count: nat, line_no: nat) -> Result<
    LineView,
    ParseErrorKind,
> {
    let tokens = tokens(code(line));
    match instruction_of(words(tokens), line_no) {
        Err(kind) => Err(kind),
        Ok(instruction) => Ok(LineView { instruction, labels: labels_of(tokens, count) }),
    }
}

/// The words among the first `k` tokens are the first words of the line.
proof fn lemma_words_prefix(tokens: Seq<Seq<u8>>, k: int)
    requires
        0 <= k <= tokens.len(),
    ensures
        words(tokens.take(k)).len() <= words(tokens).len(),
        forall|j: int|
            0 <= j < words(tokens.take(k)).len() ==> #[trigger] words(tokens)[j] == words(
                tokens.take(k),
            )[j],
{
    let prefix = tokens.take(k);
    assert(prefix.is_prefix_of(tokens));
    prefix.lemma_filter_monotone(tokens, |t: Seq<u8>| !is_label_token(t));
}

/// Reads line `line_no` of a program that has `count` instructions so far.
pub fn parse_line(line: &Vec<u8>, count: usize, line_no: usize) -> (r: Result<
    Line,
    ParseErrorKind,
>)
    requires
        count < usize::MAX,
    ensures
        match r {
            Ok(parsed) => line_spec(line@, count as nat, line_no as nat) == Ok::<
                LineView,
                ParseErrorKind,
            >(parsed@),
            Err(kind) => line_spec(line@, count as nat, line_no as nat) == Err::<
                LineView,
                ParseErrorKind,
            >(kind),
        },
{
    let toks = tokenize(line);
    let ghost all = views(toks@);
    let mut labels: Vec<Label> = Vec::new();
    let mut opcode: Option<Opcode> = None;
    let mut operand: Option<Operand> = None;
    let mut i: usize = 0;
    assert(all.take(0) =~= Seq::<Seq<u8>>::empty());
    assert(label_views(labels@) =~= labels_of(all.take(0), count as nat));
    while i < toks.len()
        invariant
            i <= toks.len(),
            count < usize::MAX,
            all == views(toks@),
            all == tokens(code(line@)),
            label_views(labels@) == labels_of(all.take(i as int), count as nat),
            words(all.take(i as int)).len() <= 2,
            opcode.is_none() <==> words(all.take(i as int)).len() == 0,
            operand.is_some() <==> words(all.take(i as int)).len() == 2,
            opcode matches Some(op) ==> opcode_of(words(all.take(i as int))[0]) == Some(op),
            opcode == Some(Opcode::End) ==> operand.is_none(),
            operand matches Some(o) ==> operand_of(opcode.unwrap(), words(all.take(i as int))[1])
                == Some(o@),
        decreases toks.len() - i,
    {
        let t = &toks[i];
        let ghost before = all.take(i as int);
        let ghost after = all.take(i + 1);
        proof {
            assert(after =~= before.push(t@));
            assert(after.drop_last() =~= before);
            before.lemma_filter_push(t@, |t: Seq<u8>| !is_label_token(t));
            lemma_words_prefix(all, i + 1);
        }
        if t.len() > 0 && t[0] == ':' as u8 {
            let done = match opcode {
                Some(op) => op == Opcode::End || operand.is_some(),
                None => false,
            };
            let name = copy_range(t, 1, t.len());
            let index = if done {
                count + 1
            } else {
                count
            };
            assert(name@ =~= t@.skip(1));
            assert(done == complete(words(before)));
            let ghost old_labels = labels@;
            labels.push(Label { name, index });
            assert(label_views(labels@) =~= label_views(old_labels).push(labels@.last()@));
        } else {
            match opcode {
                None => {
                    match read_mnemonic(t) {
                        Some(op) => {
                            opcode = Some(op);
                        },
                        None => {
                            return Err(ParseErrorKind::UnknownMnemonic);
                        },
                    }
                },
                Some(op) => {
                    if op == Opcode::End || operand.is_some() {
                        return Err(ParseErrorKind::TooManyOperands);
                    }
                    match read_operand(op, t) {
                        Some(o) => {
                            operand = Some(o);
                        },
                        None => {
                            return Err(ParseErrorKind::InvalidOperand);
                        },
                    }
                },
            }
        }
        i += 1;
    }
    assert(all.take(i as int) =~= all);
    match opcode {
        None => Ok(Line { instruction: None, labels }),
        Some(op) => {
            if op == Opcode::End {
                Ok(
                    Line {
                        instruction: Some(
                            Instruction {
                                opcode: op,
                                operand: Operand::Absent,
                                source_line: line_no,
                            },
                        ),
                        labels,
                    },
                )
            } else {
                match operand {
                    Some(o) => Ok(
                        Line {
                            instruction: Some(
                                Instruction { opcode: op, operand: o, source_line: line_no },
                            ),
                            labels,
                        },
                    ),
                    None => Err(ParseErrorKind::MissingOperand),
                }
            }
        },
    }
}

/// What has been read of a program text: the instructions and the label
/// definitions, each in the order they were written.
pub struct SourceView {
    pub instructions: Seq<InstructionView>,
    pub labels: Seq<LabelView>,
}

/// What the first `n` lines of a text hold, or the defect of the first
/// line that has one. Line `k` of the text is `lines[k - 1]`.
pub open spec fn scan_spec(lines: Seq<Seq<u8>>, n: nat) -> Result<SourceView, Defect>
    decreases n,
{
    if n == 0 {
        Ok(SourceView { instructions: Seq::empty(), labels: Seq::empty() })
    } else {
        match scan_spec(lines, (n - 1) as nat) {
            Err(defect) => Err(defect),
            Ok(read) => match line_spec(lines[n - 1], read.instructions.len(), n) {
                Err(kind) => Err(Defect { kind, line: n }),
                Ok(line) => Ok(
                    SourceView {
                        instructions: match line.instruction {
                            Some(instruction) => read.instructions.push(instruction),
                            None => read.instructions,
                        },
                        labels: read.labels + line.labels,
                    },
                ),
            },
        }
    }
}

/// The `end` instructions of a program, in order.
pub open spec fn ends(instructions: Seq<InstructionView>) -> Seq<InstructionView> {
    instructions.filter(|i: InstructionView| i.opcode == Opcode::End)
}

/// The defect in how a program ends, if it has one.
///
/// The last instruction must be `end`: if it is not, `end` is missing at its
/// line (at line 0 in an empty program). No other instruction may be `end`:
/// if one is, the second `end` of the program is the duplicate.
pub open spec fn end_defect(instructions: Seq<InstructionView>) -> Option<Defect> {
    if instructions.len() == 0 {
        Some(Defect { kind: ParseErrorKind::MissingEnd, line: 0 })
    } else if instructions.last().opcode != Opcode::End {
        Some(Defect { kind: ParseErrorKind::MissingEnd, line: instructions.last().source_line })
    } else if ends(instructions).len() > 1 {
        Some(
            Defect {
                kind: ParseErrorKind::DuplicateEnd,
                line: ends(instructions)[1].source_line,
            },
        )
    } else {
        None
    }
}

/// The instructions and labels of a text: every line must be free of
/// defects, and then the program must end as it should.
pub open spec fn syntax_spec(lines: Seq<Seq<u8>>) -> Result<SourceView, Defect> {
    match scan_spec(lines, lines.len()) {
        Err(defect) => Err(defect),
        Ok(source) => match end_defect(source.instructions) {
            Some(defect) => Err(defect),
            None => Ok(source),
        },
    }
}

/// Checks that the program ends with its only `end`.
pub fn check_end(program: &Program) -> (r: Result<(), ParseError>)
    ensures
        match r {
            Ok(_) => end_defect(program@).is_none(),
            Err(e) => end_defect(program@) == Some(e@) && e.wf(),
        },
{
    let n = program.instructions.len();
    if n == 0 {
        return Err(ParseError::new(ParseErrorKind::MissingEnd, 0));
    }
    let last = &program.instructions[n - 1];
    assert(program@.last() == last@);
    match last.opcode {
        Opcode::End => {},
        _ => {
            return Err(ParseError::new(ParseErrorKind::MissingEnd, last.source_line));
        },
    }
    let mut seen: usize = 0;
    let mut i: usize = 0;
    assert(program@.take(0) =~= Seq::<InstructionView>::empty());
    while i < n
        invariant
            i <= n,
            0 < n == program.instructions.len(),
            program@.last().opcode == Opcode::End,
            seen <= 1,
            seen == ends(program@.take(i as int)).len(),
        decreases n - i,
    {
        let instruction = &program.instructions[i];
        proof {
            let before = program@.take(i as int);
            assert(program@[i as int] == instruction@);
            assert(program@.take(i + 1) =~= before.push(instruction@));
            before.lemma_filter_push(instruction@, |i: InstructionView| i.opcode == Opcode::End);
        }
        match instruction.opcode {
            Opcode::End => {
                if seen == 1 {
                    proof {
                        let found = program@.take(i + 1);
                        assert(found.is_prefix_of(program@));
                        found.lemma_filter_monotone(
                            program@,
                            |i: InstructionView| i.opcode == Opcode::End,
                        );
                        assert(ends(program@)[1] == ends(found)[1]);
                    }
                    return Err(
                        ParseError::new(ParseErrorKind::DuplicateEnd, instruction.source_line),
                    );
                }
                seen += 1;
            },
            _ => {},
        }
        i += 1;
    }
    assert(program@.take(i as int) =~= program@);
    Ok(())
}

/// Reads a program text: the instructions of its lines in order, and the
/// labels they define.
///
/// Fails with the defect of the first line that has one; if no line has
/// one, with the defect in how the program ends, if there is one.
pub fn parser(lines: &Vec<Vec<u8>>) -> (r: Result<(Program, LabelTable), ParseError>)
    ensures
        match r {
            Ok((program, labels)) => syntax_spec(views(lines@)) == Ok::<SourceView, Defect>(
                SourceView { instructions: program@, labels: labels@ },
            ),
            Err(e) => syntax_spec(views(lines@)) == Err::<SourceView, Defect>(e@) && e.wf(),
        },
{
    let mut program = Program { instructions: Vec::new() };
    let mut labels = LabelTable { entries: Vec::new() };
    let ghost text = views(lines@);
    let mut i: usize = 0;
    assert(program@ =~= Seq::<InstructionView>::empty());
    assert(labels@ =~= Seq::<LabelView>::empty());
    while i < lines.len()
        invariant
            i <= lines.len(),
            text == views(lines@),
            program.instructions.len() <= i,
            scan_spec(text, i as nat) == Ok::<SourceView, Defect>(
                SourceView { instructions: program@, labels: labels@ },
            ),
        decreases lines.len() - i,
    {
        let ghost read_program = program@;
        let ghost read_labels = labels@;
        assert(text[i as int] == lines[i as int]@);
        match parse_line(&lines[i], program.instructions.len(), i + 1) {
            Err(kind) => {
                proof {
                    lemma_scan_defect(text, (i + 1) as nat, lines.len() as nat);
                }
                return Err(ParseError::new(kind, i + 1));
            },
            Ok(line) => {
                let ghost added = line@;
                let Line { instruction, labels: mut defined } = line;
                if let Some(instruction) = instruction {
                    program.instructions.push(instruction);
                    assert(program@ =~= read_program.push(added.instruction.unwrap()));
                }
                labels.entries.append(&mut defined);
                assert(labels@ =~= read_labels + added.labels);
            },
        }
        i += 1;
    }
    match check_end(&program) {
        Err(e) => Err(e),
        Ok(_) => Ok((program, labels)),
    }
}

/// A defect found in the first `n` lines is the defect of any longer part
/// of the text.
pub proof fn lemma_scan_defect(lines: Seq<Seq<u8>>, n: nat, m: nat)
    requires
        n <= m,
        scan_spec(lines, n).is_err(),
    ensures
        scan_spec(lines, m) == scan_spec(lines, n),
    decreases m,
{
    if n < m {
        lemma_scan_defect(lines, n, (m - 1) as nat);
    }
}

/// Every label of a line is bound to the number of instructions read before
/// the line or to one more, and to one more only if the line has words.
pub proof fn lemma_label_indices(tokens: Seq<Seq<u8>>, count: nat)
    ensures
        forall|k: int|
            0 <= k < labels_of(tokens, count).len() ==> {
                let index = (#[trigger] labels_of(tokens, count)[k]).index;
                index == count || (index == count + 1 && words(tokens).len() > 0)
            },
    decreases tokens.len(),
{
    if tokens.len() > 0 {
        let before = tokens.drop_last();
        lemma_label_indices(before, count);
        assert(before =~= tokens.take(tokens.len() - 1));
        lemma_words_prefix(tokens, tokens.len() - 1);
        assert forall|k: int| 0 <= k < labels_of(tokens, count).len() implies {
            let index = (#[trigger] labels_of(tokens, count)[k]).index;
            index == count || (index == count + 1 && words(tokens).len() > 0)
        } by {
            if k < labels_of(before, count).len() {
                assert(labels_of(tokens, count)[k] == labels_of(before, count)[k]);
            }
        }
    }
}

/// What holds of everything read from the first `n` lines of a text: no
/// line gives more than one instruction; each instruction carries the number
/// of its line, so the numbers grow along the program; every address names
/// a memory cell; and every label is bound to an instruction that was read
/// or to the place after the last.
pub proof fn lemma_scanned(lines: Seq<Seq<u8>>, n: nat)
    requires
        scan_spec(lines, n).is_ok(),
    ensures
        ({
            let source = scan_spec(lines, n)->Ok_0;
            &&& source.instructions.len() <= n
            &&& forall|i: int|
                0 <= i < source.instructions.len() ==> {
                    &&& address_in_range(#[trigger] source.instructions[i])
                    &&& 1 <= source.instructions[i].source_line <= n
                }
            &&& forall|i: int, j: int|
                0 <= i < j < source.instructions.len() ==> (
                #[trigger] source.instructions[i]).source_line < (
                #[trigger] source.instructions[j]).source_line
            &&& forall|k: int|
                0 <= k < source.labels.len() ==> (#[trigger] source.labels[k]).index
                    <= source.instructions.len()
        }),
    decreases n,
{
    if n > 0 {
        let read = scan_spec(lines, (n - 1) as nat)->Ok_0;
        lemma_scanned(lines, (n - 1) as nat);
        let tokens = tokens(code(lines[n - 1]));
        let words = words(tokens);
        if words.len() >= 2 {
            if let Some(opcode) = opcode_of(words[0]) {
                lemma_operand_shapes(opcode, words[1]);
            }
        }
        lemma_label_indices(tokens, read.instructions.len());
    }
}

/// A program with no defect in how it ends has `end` as its last
/// instruction and nowhere else.
pub proof fn lemma_single_end(instructions: Seq<InstructionView>)
    requires
        end_defect(instructions).is_none(),
    ensures
        instructions.len() > 0,
        forall|i: int|
            0 <= i < instructions.len() ==> ((#[trigger] instructions[i]).opcode == Opcode::End
                <==> i == instructions.len() - 1),
{
    let is_end = |i: InstructionView| i.opcode == Opcode::End;
    let last = instructions.len() - 1;
    assert forall|i: int| 0 <= i < last implies (#[trigger] instructions[i]).opcode
        != Opcode::End by {
        if instructions[i].opcode == Opcode::End {
            let upto = instructions.take(i + 1);
            let rest = instructions.take(last);
            assert(upto =~= instructions.take(i).push(instructions[i]));
            instructions.take(i).lemma_filter_push(instructions[i], is_end);
            assert(upto.is_prefix_of(rest));
            upto.lemma_filter_monotone(rest, is_end);
            assert(instructions =~= rest.push(instructions[last]));
            rest.lemma_filter_push(instructions[last], is_end);
        }
    }
}

} // verus!
